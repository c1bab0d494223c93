use itertools::Itertools;
use rustc_hash::FxHashMap;
use vstd::prelude::*;
use vstd::string::*;

verus! {

/// How a block type is drawn: not at all, as a solid, or see-through.
#[derive(PartialEq, Eq, Structural, Clone, Copy, Debug, Hash)]
pub enum VoxelVisibility {
    Empty,
    Opaque,
    Transparent,
}

/// The horizontal direction a block faces.
#[derive(PartialEq, Eq, Structural, Clone, Copy, Debug, Hash)]
pub enum Direction {
    North,
    West,
    East,
    South,
}

/// The stage a growing block has reached.
#[derive(PartialEq, Eq, Structural, Clone, Copy, Debug, Hash)]
pub enum GrowthState {
    Planted,
    Sapling,
    Young,
    Ripe,
    Spoiled,
}

impl Direction {
    pub open spec fn spec_name(&self) -> Seq<char> {
        match self {
            Direction::North => "north"@,
            Direction::West => "west"@,
            Direction::East => "east"@,
            Direction::South => "south"@,
        }
    }

    /// The lower-case name of the direction.
    pub fn get_as_string(&self) -> (r: String)
        ensures
            r@ == self.spec_name(),
    {
        match self {
            Direction::North => String::from_str("north"),
            Direction::West => String::from_str("west"),
            Direction::East => String::from_str("east"),
            Direction::South => String::from_str("south"),
        }
    }
}

/// The items held by a block that stores things, and how many it may hold.
#[derive(Debug, Hash)]
pub struct Container {
    pub items: Vec<String>,
    pub max_size: u8,
}

/// The mathematical value of a [`Container`].
pub struct ContainerView {
    pub items: Seq<Seq<char>>,
    pub max_size: u8,
}

pub open spec fn strings_view(s: Seq<String>) -> Seq<Seq<char>> {
    s.map_values(|x: String| x@)
}

impl View for Container {
    type V = ContainerView;

    open spec fn view(&self) -> ContainerView {
        ContainerView { items: strings_view(self.items@), max_size: self.max_size }
    }
}

pub open spec fn opt_string_view(s: Option<String>) -> Option<Seq<char>> {
    match s {
        Some(x) => Some(x@),
        None => None,
    }
}

pub open spec fn opt_container_view(c: Option<Container>) -> Option<ContainerView> {
    match c {
        Some(x) => Some(x@),
        None => None,
    }
}

/// The content of one voxel. Two values are equal when every field is.
#[derive(Debug, Hash)]
pub struct BlockData {
    pub namespace: String,
    pub name: String,
    pub direction: Option<Direction>,
    pub container: Option<Container>,
    pub growth_state: Option<GrowthState>,
    pub last_tick: Option<u64>,
    pub arbitary_data: Option<String>,
    pub top: Option<bool>,
}

/// The mathematical value of a [`BlockData`].
pub struct BlockView {
    pub namespace: Seq<char>,
    pub name: Seq<char>,
    pub direction: Option<Direction>,
    pub container: Option<ContainerView>,
    pub growth_state: Option<GrowthState>,
    pub last_tick: Option<u64>,
    pub arbitary_data: Option<Seq<char>>,
    pub top: Option<bool>,
}

impl View for BlockData {
    type V = BlockView;

    open spec fn view(&self) -> BlockView {
        BlockView {
            namespace: self.namespace@,
            name: self.name@,
            direction: self.direction,
            container: opt_container_view(self.container),
            growth_state: self.growth_state,
            last_tick: self.last_tick,
            arbitary_data: opt_string_view(self.arbitary_data),
            top: self.top,
        }
    }
}

/// A block of the given namespace and name with every optional field unset.
pub open spec fn plain_block(namespace: Seq<char>, name: Seq<char>) -> BlockView {
    BlockView {
        namespace,
        name,
        direction: None,
        container: None,
        growth_state: None,
        last_tick: None,
        arbitary_data: None,
        top: None,
    }
}

/// The value every voxel of a fresh chunk holds: `vinox:air`.
pub open spec fn air() -> BlockView {
    plain_block("vinox"@, "air"@)
}

/// The identifier of a block: its namespace, a colon, and its name.
pub open spec fn identifier_of(b: BlockView) -> Seq<char> {
    b.namespace + ":"@ + b.name
}

fn clone_strings(v: &Vec<String>) -> (r: Vec<String>)
    ensures
        strings_view(r@) == strings_view(v@),
{
    let mut r: Vec<String> = Vec::new();
    let mut i: usize = 0;
    while i < v.len()
        invariant
            i <= v.len(),
            r@.len() == i,
            forall|j: int| 0 <= j < i ==> #[trigger] r@[j]@ == v@[j]@,
        decreases v.len() - i,
    {
        r.push(v[i].clone());
        i = i + 1;
    }
    assert(strings_view(r@) =~= strings_view(v@));
    r
}

fn strings_eq(a: &Vec<String>, b: &Vec<String>) -> (r: bool)
    ensures
        r == (strings_view(a@) == strings_view(b@)),
{
    if a.len() != b.len() {
        assert(strings_view(a@).len() != strings_view(b@).len());
        return false;
    }
    let mut i: usize = 0;
    while i < a.len()
        invariant
            i <= a.len(),
            a.len() == b.len(),
            forall|j: int| 0 <= j < i ==> #[trigger] a@[j]@ == b@[j]@,
        decreases a.len() - i,
    {
        if a[i] != b[i] {
            assert(strings_view(a@)[i as int] != strings_view(b@)[i as int]);
            return false;
        }
        i = i + 1;
    }
    assert(strings_view(a@) =~= strings_view(b@));
    true
}

fn opt_string_clone(s: &Option<String>) -> (r: Option<String>)
    ensures
        opt_string_view(r) == opt_string_view(*s),
{
    match s {
        Some(x) => Some(x.clone()),
        None => None,
    }
}

fn opt_string_eq(a: &Option<String>, b: &Option<String>) -> (r: bool)
    ensures
        r == (opt_string_view(*a) == opt_string_view(*b)),
{
    match (a, b) {
        (Some(x), Some(y)) => x.eq(y),
        (None, None) => true,
        _ => false,
    }
}

impl Clone for Container {
    fn clone(&self) -> (r: Self)
        ensures
            r@ == self@,
    {
        Container { items: clone_strings(&self.items), max_size: self.max_size }
    }
}

impl PartialEq for Container {
    fn eq(&self, other: &Container) -> (r: bool) {
        strings_eq(&self.items, &other.items) && self.max_size == other.max_size
    }
}

impl vstd::std_specs::cmp::PartialEqSpecImpl for Container {
    open spec fn obeys_eq_spec() -> bool {
        true
    }

    open spec fn eq_spec(&self, other: &Container) -> bool {
        self@ == other@
    }
}

impl Eq for Container {

}

fn opt_container_clone(c: &Option<Container>) -> (r: Option<Container>)
    ensures
        opt_container_view(r) == opt_container_view(*c),
{
    match c {
        Some(x) => Some(x.clone()),
        None => None,
    }
}

fn opt_container_eq(a: &Option<Container>, b: &Option<Container>) -> (r: bool)
    ensures
        r == (opt_container_view(*a) == opt_container_view(*b)),
{
    match (a, b) {
        (Some(x), Some(y)) => x.eq(y),
        (None, None) => true,
        _ => false,
    }
}

fn opt_direction_eq(a: &Option<Direction>, b: &Option<Direction>) -> (r: bool)
    ensures
        r == (*a == *b),
{
    match (a, b) {
        (Some(x), Some(y)) => *x == *y,
        (None, None) => true,
        _ => false,
    }
}

fn opt_growth_eq(a: &Option<GrowthState>, b: &Option<GrowthState>) -> (r: bool)
    ensures
        r == (*a == *b),
{
    match (a, b) {
        (Some(x), Some(y)) => *x == *y,
        (None, None) => true,
        _ => false,
    }
}

fn opt_u64_eq(a: &Option<u64>, b: &Option<u64>) -> (r: bool)
    ensures
        r == (*a == *b),
{
    match (a, b) {
        (Some(x), Some(y)) => *x == *y,
        (None, None) => true,
        _ => false,
    }
}

fn opt_bool_eq(a: &Option<bool>, b: &Option<bool>) -> (r: bool)
    ensures
        r == (*a == *b),
{
    match (a, b) {
        (Some(x), Some(y)) => *x == *y,
        (None, None) => true,
        _ => false,
    }
}

impl Clone for BlockData {
    fn clone(&self) -> (r: Self)
        ensures
            r@ == self@,
    {
        BlockData {
            namespace: self.namespace.clone(),
            name: self.name.clone(),
            direction: self.direction,
            container: opt_container_clone(&self.container),
            growth_state: self.growth_state,
            last_tick: self.last_tick,
            arbitary_data: opt_string_clone(&self.arbitary_data),
            top: self.top,
        }
    }
}

impl PartialEq for BlockData {
    fn eq(&self, other: &BlockData) -> (r: bool) {
        self.namespace == other.namespace && self.name == other.name && opt_direction_eq(
            &self.direction,
            &other.direction,
        ) && opt_container_eq(&self.container, &other.container) && opt_growth_eq(
            &self.growth_state,
            &other.growth_state,
        ) && opt_u64_eq(&self.last_tick, &other.last_tick) && opt_string_eq(
            &self.arbitary_data,
            &other.arbitary_data,
        ) && opt_bool_eq(&self.top, &other.top)
    }
}

impl vstd::std_specs::cmp::PartialEqSpecImpl for BlockData {
    open spec fn obeys_eq_spec() -> bool {
        true
    }

    open spec fn eq_spec(&self, other: &BlockData) -> bool {
        self@ == other@
    }
}

impl Eq for BlockData {

}

impl Default for BlockData {
    /// Air: `vinox:air` with every optional field unset.
    fn default() -> (r: Self)
        ensures
            r@ == air(),
    {
        BlockData::new(String::from_str("vinox"), String::from_str("air"))
    }
}

impl BlockData {
    /// A block of the given namespace and name with every optional field unset.
    pub fn new(namespace: String, name: String) -> (r: Self)
        ensures
            r@ == plain_block(namespace@, name@),
    {
        BlockData {
            namespace,
            name,
            direction: None,
            container: None,
            growth_state: None,
            last_tick: None,
            arbitary_data: None,
            top: None,
        }
    }

    /// The identifier of this block, `namespace:name`.
    pub fn identifier(&self) -> (r: String)
        ensures
            r@ == identifier_of(self@),
    {
        name_to_identifier(self.namespace.clone(), self.name.clone())
    }

    /// How the table says this block is drawn; `None` when the table does not
    /// know its identifier. A known block with no visibility given is empty.
    pub fn visibility(&self, block_table: &BlockTable) -> (r: Option<VoxelVisibility>)
        ensures
            r == visibility_in(self@, block_table@),
    {
        let id = self.identifier();
        match block_table.get(id.as_str()) {
            Some(descriptor) => match descriptor.visibility {
                Some(v) => Some(v),
                None => Some(VoxelVisibility::Empty),
            },
            None => None,
        }
    }

    /// Whether the table knows this block and says it is not drawn.
    pub fn is_empty(&self, block_table: &BlockTable) -> (r: bool)
        ensures
            r == (visibility_in(self@, block_table@) == Some(VoxelVisibility::Empty)),
    {
        match self.visibility(block_table) {
            Some(v) => v == VoxelVisibility::Empty,
            None => false,
        }
    }
}

/// What the block table says of the visibility of `b`: `None` for an
/// identifier it does not hold, `Empty` for one it holds with none given.
pub open spec fn visibility_in(b: BlockView, table: Map<Seq<char>, BlockDescriptor>) -> Option<
    VoxelVisibility,
> {
    let id = identifier_of(b);
    if table.contains_key(id) {
        match table[id].visibility {
            Some(v) => Some(v),
            None => Some(VoxelVisibility::Empty),
        }
    } else {
        None
    }
}

/// `namespace:name`.
pub fn name_to_identifier(namespace: String, name: String) -> (r: String)
    ensures
        r@ == namespace@ + ":"@ + name@,
{
    let mut temp_name = namespace;
    temp_name.append(":");
    temp_name.append(name.as_str());
    temp_name
}

/// The first index at which `c` stands in `s`.
pub open spec fn index_of(s: Seq<char>, c: char) -> Option<nat>
    decreases s.len(),
{
    if s.len() == 0 {
        None
    } else if s[0] == c {
        Some(0)
    } else {
        match index_of(s.drop_first(), c) {
            Some(k) => Some(k + 1),
            None => None,
        }
    }
}

/// `s` cut at the first `c`: what stands before it and what stands after it.
pub open spec fn split_once(s: Seq<char>, c: char) -> Option<(Seq<char>, Seq<char>)> {
    match index_of(s, c) {
        Some(k) => Some((s.take(k as int), s.skip((k + 1) as int))),
        None => None,
    }
}

/// Relies on `str::splitn(2, ':')` followed by `Itertools::tuples`: the first
/// pair of pieces exists exactly when the text holds a colon, and it is the
/// text before the first colon and the text after it.
#[verifier::external_body]
fn split_identifier(identifier: &str) -> (r: Option<(String, String)>)
    ensures
        match r {
            Some((a, b)) => split_once(identifier@, ':') == Some((a@, b@)),
            None => split_once(identifier@, ':') is None,
        },
{
    match identifier.splitn(2, ':').tuples::<(&str, &str)>().next() {
        Some((namespace, name)) => Some((namespace.to_string(), name.to_string())),
        None => None,
    }
}

/// The namespace and the name of an identifier `namespace:name`, cut at the
/// first colon; `None` when there is no colon.
pub fn identifier_to_name(identifier: String) -> (r: Option<(String, String)>)
    ensures
        match r {
            Some((a, b)) => split_once(identifier@, ':') == Some((a@, b@)),
            None => split_once(identifier@, ':') is None,
        },
{
    split_identifier(identifier.as_str())
}

/// The name of an identifier `namespace:name`: what follows the first colon;
/// `None` when there is no colon.
pub fn identifier_to_just_name(identifier: String) -> (r: Option<String>)
    ensures
        match r {
            Some(b) => match split_once(identifier@, ':') {
                Some((_, name)) => name == b@,
                None => false,
            },
            None => split_once(identifier@, ':') is None,
        },
{
    match split_identifier(identifier.as_str()) {
        Some((_, name)) => Some(name),
        None => None,
    }
}

proof fn lemma_index_of_found(s: Seq<char>, c: char, k: int)
    requires
        0 <= k < s.len(),
        s[k] == c,
        forall|j: int| 0 <= j < k ==> s[j] != c,
    ensures
        index_of(s, c) == Some(k as nat),
    decreases s.len(),
{
    if k > 0 {
        lemma_index_of_found(s.drop_first(), c, k - 1);
    }
}

proof fn lemma_index_of_absent(s: Seq<char>, c: char)
    requires
        forall|j: int| 0 <= j < s.len() ==> s[j] != c,
    ensures
        index_of(s, c) is None,
    decreases s.len(),
{
    if s.len() > 0 {
        lemma_index_of_absent(s.drop_first(), c);
    }
}

/// The part of a geometry identifier before its first dot, or the whole
/// identifier when it has no dot.
pub fn trim_geo_identifier(identifier: String) -> (r: String)
    ensures
        r@ == match split_once(identifier@, '.') {
            Some((prefix, _)) => prefix,
            None => identifier@,
        },
{
    let n = identifier.as_str().unicode_len();
    let mut k: usize = 0;
    while k < n
        invariant
            n == identifier@.len(),
            k <= n,
            forall|j: int| 0 <= j < k ==> identifier@[j] != '.',
        decreases n - k,
    {
        if identifier.as_str().get_char(k) == '.' {
            proof {
                lemma_index_of_found(identifier@, '.', k as int);
            }
            let prefix = identifier.as_str().substring_char(0, k);
            return String::from_str(prefix);
        }
        k = k + 1;
    }
    proof {
        lemma_index_of_absent(identifier@, '.');
    }
    identifier
}

/// What the block table holds for one block type.
#[derive(PartialEq, Eq, Structural, Clone, Copy, Debug, Hash)]
pub struct BlockDescriptor {
    /// How the block is drawn; a block with none given is empty.
    pub visibility: Option<VoxelVisibility>,
    /// Whether the block can face a direction.
    pub has_direction: bool,
    /// Whether the block faces only its own direction.
    pub exclusive_direction: bool,
}

/// An `FxHashMap` from identifiers to descriptors, opaque to the verifier.
#[verifier::external_body]
pub struct DescriptorMap {
    inner: FxHashMap<String, BlockDescriptor>,
}

/// The entries of a descriptor map, by identifier.
pub uninterp spec fn descriptors_of(m: DescriptorMap) -> Map<Seq<char>, BlockDescriptor>;

/// Relies on `FxHashMap::default`: the map holds nothing.
#[verifier::external_body]
fn descriptor_map_new() -> (r: DescriptorMap)
    ensures
        descriptors_of(r).dom() == Set::<Seq<char>>::empty(),
{
    DescriptorMap { inner: FxHashMap::default() }
}

/// Relies on `HashMap::insert`: the key now maps to the value, and every other
/// key keeps its entry. `String` keys are equal exactly when their characters are.
#[verifier::external_body]
fn descriptor_map_insert(m: &mut DescriptorMap, key: String, value: BlockDescriptor)
    ensures
        descriptors_of(*final(m)) == descriptors_of(*old(m)).insert(key@, value),
{
    m.inner.insert(key, value);
}

/// Relies on `HashMap::get`: the entry of the key, if there is one.
#[verifier::external_body]
fn descriptor_map_get(m: &DescriptorMap, key: &str) -> (r: Option<BlockDescriptor>)
    ensures
        r == (if descriptors_of(*m).contains_key(key@) {
            Some(descriptors_of(*m)[key@])
        } else {
            None
        }),
{
    m.inner.get(key).copied()
}

/// The block-type lookup: identifier to descriptor.
pub struct BlockTable {
    descriptors: DescriptorMap,
}

impl View for BlockTable {
    type V = Map<Seq<char>, BlockDescriptor>;

    closed spec fn view(&self) -> Map<Seq<char>, BlockDescriptor> {
        descriptors_of(self.descriptors)
    }
}

impl BlockTable {
    /// A table that knows no block type.
    pub fn new() -> (r: Self)
        ensures
            r@.dom() == Set::<Seq<char>>::empty(),
    {
        BlockTable { descriptors: descriptor_map_new() }
    }

    /// Registers (or replaces) the descriptor of an identifier.
    pub fn insert(&mut self, identifier: String, descriptor: BlockDescriptor)
        ensures
            final(self)@ == old(self)@.insert(identifier@, descriptor),
    {
        descriptor_map_insert(&mut self.descriptors, identifier, descriptor);
    }

    /// The descriptor of an identifier, if the table holds one.
    pub fn get(&self, identifier: &str) -> (r: Option<BlockDescriptor>)
        ensures
            r == (if self@.contains_key(identifier@) {
                Some(self@[identifier@])
            } else {
                None
            }),
    {
        descriptor_map_get(&self.descriptors, identifier)
    }
}

} // verus!
