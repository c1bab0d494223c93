use vinox_chunks::{BlockData, Storage};

fn block(name: &str) -> BlockData {
    BlockData::new("vinox".to_string(), name.to_string())
}

fn uniform(s: &Storage) -> bool {
    matches!(s, Storage::Single(_))
}

fn ref_total(s: &Storage) -> usize {
    s.palette_entries().iter().map(|(_, c)| *c).sum()
}

#[test]
fn fresh_storage_is_uniform_air() {
    let s = Storage::new(64);
    assert!(uniform(&s));
    for i in 0..64 {
        assert_eq!(s.get(i), BlockData::default());
    }
    assert!(s.palette_entries().is_empty());
}

#[test]
fn writing_the_uniform_value_keeps_uniform() {
    let mut s = Storage::new(8);
    s.set(3, BlockData::default());
    assert!(uniform(&s));
    assert_eq!(s.get(3), BlockData::default());
}

#[test]
fn one_differing_value_promotes() {
    let mut s = Storage::new(8);
    s.set(5, block("dirt"));
    assert!(!uniform(&s));
    for i in 0..8 {
        if i == 5 {
            assert_eq!(s.get(i), block("dirt"));
        } else {
            assert_eq!(s.get(i), BlockData::default());
        }
    }
    let entries = s.palette_entries();
    assert_eq!(entries.len(), 2);
    assert_eq!(entries[0], (BlockData::default(), 7));
    assert_eq!(entries[1], (block("dirt"), 1));
}

#[test]
fn converging_and_trimming_demotes() {
    let mut s = Storage::new(8);
    s.set(2, block("stone"));
    assert!(!uniform(&s));
    s.set(2, BlockData::default());
    assert!(!uniform(&s));
    s.trim();
    assert!(uniform(&s));
    for i in 0..8 {
        assert_eq!(s.get(i), BlockData::default());
    }
}

#[test]
fn trim_keeps_palette_while_values_differ() {
    let mut s = Storage::new(8);
    s.set(0, block("stone"));
    s.trim();
    assert!(!uniform(&s));
    assert_eq!(s.get(0), block("stone"));
    assert_eq!(s.get(1), BlockData::default());
}

#[test]
fn trim_demotes_to_a_value_other_than_the_first() {
    let mut s = Storage::new(4);
    for i in 0..4 {
        s.set(i, block("sand"));
    }
    assert!(!uniform(&s));
    s.trim();
    assert!(uniform(&s));
    for i in 0..4 {
        assert_eq!(s.get(i), block("sand"));
    }
}

#[test]
fn palette_growth_keeps_every_value() {
    let names = ["a", "b", "c", "d", "e", "f", "g"];
    let mut s = Storage::new(16);
    for (i, n) in names.iter().enumerate() {
        s.set(i, block(n));
    }
    for (i, n) in names.iter().enumerate() {
        assert_eq!(s.get(i), block(n));
    }
    for i in names.len()..16 {
        assert_eq!(s.get(i), BlockData::default());
    }
    assert_eq!(ref_total(&s), 16);
}

#[test]
fn growth_past_sixteen_entries() {
    let mut s = Storage::new(64);
    for i in 0..40 {
        s.set(i, block(&format!("b{}", i)));
    }
    for i in 0..40 {
        assert_eq!(s.get(i), block(&format!("b{}", i)));
    }
    for i in 40..64 {
        assert_eq!(s.get(i), BlockData::default());
    }
    assert_eq!(ref_total(&s), 64);
    assert_eq!(s.palette_entries().len(), 41);
}

#[test]
fn equal_value_reuses_its_entry() {
    let mut s = Storage::new(8);
    s.set(0, block("dirt"));
    s.set(1, block("dirt"));
    s.set(2, block("dirt"));
    let entries = s.palette_entries();
    assert_eq!(entries.len(), 2);
    assert_eq!(entries[1], (block("dirt"), 3));
}

#[test]
fn freed_entry_is_recycled() {
    let mut s = Storage::new(8);
    s.set(0, block("dirt"));
    s.set(0, BlockData::default());
    let entries = s.palette_entries();
    assert_eq!(entries.len(), 2);
    assert_eq!(entries[1].1, 0);
    s.set(1, block("stone"));
    let entries = s.palette_entries();
    assert_eq!(entries.len(), 2);
    assert_eq!(entries[1], (block("stone"), 1));
    assert_eq!(s.get(1), block("stone"));
}

#[test]
fn ref_counts_sum_to_volume() {
    let mut s = Storage::new(27);
    let names = ["a", "b", "a", "c", "b", "d", "e", "a"];
    for (k, n) in names.iter().enumerate() {
        s.set((k * 5) % 27, block(n));
        assert_eq!(ref_total(&s), 27);
    }
    s.set(0, BlockData::default());
    assert_eq!(ref_total(&s), 27);
}

#[test]
fn full_volume_of_distinct_values() {
    let mut s = Storage::new(300);
    for i in 0..300 {
        s.set(i, block(&format!("v{}", i)));
    }
    for i in 0..300 {
        assert_eq!(s.get(i), block(&format!("v{}", i)));
    }
    assert_eq!(ref_total(&s), 300);
}

#[test]
fn clone_keeps_values() {
    let mut s = Storage::new(8);
    s.set(1, block("clay"));
    let c = s.clone();
    s.set(1, block("iron"));
    assert_eq!(c.get(1), block("clay"));
    assert_eq!(s.get(1), block("iron"));
}

#[test]
fn empty_volume() {
    let mut s = Storage::new(0);
    s.trim();
    assert!(uniform(&s));
}
