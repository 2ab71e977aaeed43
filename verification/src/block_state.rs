//! Block states: the name of a block and the properties it is placed with.

use crate::error::BlockStateParseError;
use crate::nbt::{
    lookup_failure, compound_entries, compound_names, compound_tag, field, get_str, get_tag, insert_tag,
    new_compound, string_tag, tag_as_compound, tag_as_string, tag_content, views, TagContent,
};
use quartz_nbt::{NbtCompound, NbtTag};
use vstd::prelude::*;
use vstd::std_specs::cmp::PartialEqSpecImpl;
use vstd::string::StringExecFns;

verus! {

/// The lower-case form of a text, as `str::to_lowercase` gives it.
pub uninterp spec fn lowercase(text: Seq<char>) -> Seq<char>;

/// `str::to_lowercase`: the text with every character in lower case.
#[verifier::external_body]
fn to_lowercase(text: &str) -> (lower: String)
    ensures
        lower@ == lowercase(text@),
{
    text.to_lowercase()
}

/// Whether a colon occurs in the text.
fn has_separator(name: &str) -> (found: bool)
    ensures
        found == name@.contains(':'),
{
    broadcast use vstd::string::group_string_axioms;

    let mut found = false;
    for c in it: name.chars()
        invariant
            it.seq() == name@,
            found == name@.take(it.index() as int).contains(':'),
    {
        let ghost seen = name@.take(it.index() as int);
        assert(name@.take(it.index() + 1).drop_last() =~= seen);
        assert(name@.take(it.index() + 1).last() == c);
        proof {
            let wide = name@.take(it.index() + 1);
            if seen.contains(':') {
                let j = choose|j: int| 0 <= j < seen.len() && seen[j] == ':';
                assert(wide[j] == ':');
            }
            if wide.contains(':') && c != ':' {
                let j = choose|j: int| 0 <= j < wide.len() && wide[j] == ':';
                assert(seen[j] == ':');
            }
            if c == ':' {
                assert(wide[it.index() as int] == ':');
            }
        }
        if c == ':' {
            found = true;
        }
    }
    assert(name@.take(name@.len() as int) =~= name@);
    found
}

/// A block state as a value: its name and its properties by key.
pub struct BlockStateView {
    /// The namespaced, lower-case name of the block
    pub name: Seq<char>,
    /// The properties of the block
    pub properties: Map<Seq<char>, Seq<char>>,
}

/// The name under which a block is kept: in lower case, and in the default
/// namespace where it names none.
pub open spec fn normalized_name(name: Seq<char>) -> Seq<char> {
    if name.contains(':') {
        lowercase(name)
    } else {
        lowercase("minecraft:"@ + name)
    }
}

/// The value that a list of properties gives to `key`: that of the last
/// entry with this key.
pub open spec fn lookup(entries: Seq<(String, String)>, key: Seq<char>) -> Option<Seq<char>>
    decreases entries.len(),
{
    if entries.len() == 0 {
        None
    } else if entries.last().0@ == key {
        Some(entries.last().1@)
    } else {
        lookup(entries.drop_last(), key)
    }
}

/// The properties that a list of entries stands for.
pub open spec fn property_map(entries: Seq<(String, String)>) -> Map<Seq<char>, Seq<char>> {
    Map::new(
        |key: Seq<char>| lookup(entries, key) is Some,
        |key: Seq<char>| lookup(entries, key)->0,
    )
}

/// The state of a block that holds nothing: every position of a region that
/// was not given a block has it.
pub open spec fn air() -> BlockStateView {
    BlockStateView { name: normalized_name("air"@), properties: Map::empty() }
}

/// The text of the string tag called `key` in `compound`, if there is one.
pub open spec fn text_entry(compound: NbtCompound, key: Seq<char>) -> Option<Seq<char>> {
    match field(compound, key) {
        Some(TagContent::Text(text)) => Some(text),
        _ => None,
    }
}

/// The properties that a compound of string tags stands for. Tags of other
/// kinds are passed over.
pub open spec fn spec_properties(compound: NbtCompound) -> Map<Seq<char>, Seq<char>> {
    Map::new(
        |key: Seq<char>| text_entry(compound, key) is Some,
        |key: Seq<char>| text_entry(compound, key)->0,
    )
}

/// The block state that a palette entry stands for, or why it stands for none.
pub open spec fn spec_block_state(data: NbtCompound) -> Result<
    BlockStateView,
    crate::error::BlockStateFailure,
> {
    let properties = match field(data, "Properties"@) {
        None => Some(Map::empty()),
        Some(TagContent::Compound(inner)) => Some(spec_properties(inner)),
        Some(_) => None,
    };
    match properties {
        None => Err(crate::error::BlockStateFailure::WrongTag("Properties"@)),
        Some(properties) => match field(data, "Name"@) {
            Some(TagContent::Text(name)) => Ok(
                BlockStateView { name: normalized_name(name), properties },
            ),
            _ => Err(
                crate::error::BlockStateFailure::NonexistentTag(
                    lookup_failure(data, "Name"@, "String"@),
                ),
            ),
        },
    }
}

/// Whether `data` is the palette entry of `state`: its name under `Name`
/// and, where it has any, its properties as string tags under `Properties`.
pub open spec fn is_entry_of(data: NbtCompound, state: BlockStateView) -> bool {
    &&& field(data, "Name"@) == Some(TagContent::Text(state.name))
    &&& forall|key: Seq<char>| #[trigger]
        compound_entries(data).contains_key(key) ==> key == "Name"@ || key == "Properties"@
    &&& if state.properties.dom() =~= Set::empty() {
        field(data, "Properties"@) is None
    } else {
        field(data, "Properties"@) matches Some(TagContent::Compound(inner)) && forall|
            key: Seq<char>,
        | #[trigger]
            field(inner, key) == if state.properties.contains_key(key) {
                Some(TagContent::Text(state.properties[key]))
            } else {
                None
            }
    }
}

impl BlockStateView {
    /// The state as it is read back from its palette entry: the name goes
    /// through the rule for names once more.
    pub open spec fn read_back(self) -> BlockStateView {
        BlockStateView { name: normalized_name(self.name), properties: self.properties }
    }

    /// Whether the state is read back from its palette entry as it is: the
    /// rule for names leaves its name as it stands.
    pub open spec fn is_settled(self) -> bool {
        normalized_name(self.name) == self.name
    }
}

/// The palette entry of a state stands for that state, its name gone
/// through the rule for names once more.
pub proof fn lemma_entry_reads_back(data: NbtCompound, state: BlockStateView)
    requires
        is_entry_of(data, state),
    ensures
        spec_block_state(data) == Ok::<BlockStateView, crate::error::BlockStateFailure>(
            state.read_back(),
        ),
{
    if state.properties.dom() =~= Set::empty() {
        assert(state.properties =~= Map::empty());
    } else {
        let inner = field(data, "Properties"@)->0->Compound_0;
        assert forall|key: Seq<char>|
            text_entry(inner, key) == if state.properties.contains_key(key) {
                Some(state.properties[key])
            } else {
                None
            } by {
            assert(field(inner, key) == if state.properties.contains_key(key) {
                Some(TagContent::Text(state.properties[key]))
            } else {
                None
            });
        }
        assert(spec_properties(inner) =~= state.properties);
    }
}

/// A key has a value exactly where some entry has that key.
pub proof fn lemma_lookup_some(entries: Seq<(String, String)>, key: Seq<char>)
    ensures
        lookup(entries, key) is Some <==> exists|i: int|
            0 <= i < entries.len() && (#[trigger] entries[i]).0@ == key,
    decreases entries.len(),
{
    if entries.len() > 0 {
        lemma_lookup_some(entries.drop_last(), key);
        if entries.last().0@ != key {
            if lookup(entries, key) is Some {
                let i = choose|i: int|
                    0 <= i < entries.drop_last().len() && (#[trigger] entries.drop_last()[i]).0@
                        == key;
                assert(entries[i].0@ == key);
            }
            if exists|i: int| 0 <= i < entries.len() && (#[trigger] entries[i]).0@ == key {
                let i = choose|i: int| 0 <= i < entries.len() && (#[trigger] entries[i]).0@ == key;
                assert(entries.drop_last()[i].0@ == key);
            }
        } else {
            assert(entries[entries.len() - 1].0@ == key);
        }
    }
}

/// The place of the last entry with the key `key`, if there is one.
fn find(entries: &Vec<(String, String)>, key: &String) -> (place: Option<usize>)
    ensures
        match place {
            Some(i) => i < entries.len() && entries[i as int].0@ == key@ && lookup(
                entries@,
                key@,
            ) == Some(entries[i as int].1@),
            None => lookup(entries@, key@) is None,
        },
{
    let mut i = entries.len();
    assert(entries@.take(i as int) =~= entries@);
    while i > 0
        invariant
            i <= entries.len(),
            lookup(entries@, key@) == lookup(entries@.take(i as int), key@),
        decreases i,
    {
        i = i - 1;
        assert(entries@.take(i + 1).drop_last() =~= entries@.take(i as int));
        if entries[i].0 == *key {
            return Some(i);
        }
    }
    None
}

/// Whether every key of `a` has in `b` the value that it has in `a`.
fn covers(a: &Vec<(String, String)>, b: &Vec<(String, String)>) -> (all: bool)
    ensures
        all <==> forall|key: Seq<char>|
            lookup(a@, key) is Some ==> #[trigger] lookup(b@, key) == lookup(a@, key),
{
    let mut i: usize = 0;
    while i < a.len()
        invariant
            i <= a.len(),
            forall|j: int|
                0 <= j < i ==> lookup(b@, (#[trigger] a@[j]).0@) == lookup(a@, a@[j].0@),
        decreases a.len() - i,
    {
        let key = &a[i].0;
        proof {
            lemma_lookup_some(a@, key@);
        }
        let equal = match (find(a, key), find(b, key)) {
            (Some(x), Some(y)) => a[x].1 == b[y].1,
            _ => false,
        };
        if !equal {
            assert(lookup(a@, key@) is Some && lookup(b@, key@) != lookup(a@, key@));
            return false;
        }
        i = i + 1;
    }
    proof {
        assert forall|key: Seq<char>| lookup(a@, key) is Some implies #[trigger] lookup(b@, key)
            == lookup(a@, key) by {
            lemma_lookup_some(a@, key);
            let j = choose|j: int| 0 <= j < a@.len() && (#[trigger] a@[j]).0@ == key;
            assert(lookup(b@, a@[j].0@) == lookup(a@, a@[j].0@));
        }
    }
    true
}

/// A struct that represents a block state
#[derive(Debug)]
pub struct BlockState {
    block: String,
    properties: Vec<(String, String)>,
}

impl View for BlockState {
    type V = BlockStateView;

    open spec fn view(&self) -> BlockStateView {
        BlockStateView { name: self.name(), properties: property_map(self.entries()) }
    }
}

impl BlockState {
    /// The name of the block as it is kept.
    pub closed spec fn name(&self) -> Seq<char> {
        self.block@
    }

    /// The properties of the block as they are kept, each a key and a
    /// value. Where a key occurs more than once, the last entry counts.
    pub closed spec fn entries(&self) -> Seq<(String, String)> {
        self.properties@
    }

    /// Two block states are the same value where their names are equal and
    /// every key has the same value, or none, in both.
    pub proof fn lemma_same_view(&self, other: &BlockState)
        ensures
            self@ == other@ <==> self.name() == other.name() && forall|key: Seq<char>| #[trigger]
                lookup(self.entries(), key) == lookup(other.entries(), key),
    {
        let a = property_map(self.entries());
        let b = property_map(other.entries());
        if self.name() == other.name() && forall|key: Seq<char>| #[trigger]
            lookup(self.entries(), key) == lookup(other.entries(), key) {
            assert(a =~= b);
        }
        if self@ == other@ {
            assert forall|key: Seq<char>| #[trigger]
                lookup(self.entries(), key) == lookup(other.entries(), key) by {
                assert(a.contains_key(key) == b.contains_key(key));
                if a.contains_key(key) {
                    assert(a[key] == b[key]);
                }
            }
        }
    }

    /// Create a new block state
    ///
    /// It also automatically prefixes the block name with `minecraft:` if it's left out, and converts it to lowercase
    pub fn new(block: &str, properties: Option<Vec<(String, String)>>) -> (state: BlockState)
        ensures
            state.name() == normalized_name(block@),
            state.entries() == match properties {
                Some(entries) => entries@,
                None => Seq::empty(),
            },
            properties is None ==> state@.properties == Map::<Seq<char>, Seq<char>>::empty(),
    {
        let state = BlockState {
            block: BlockState::prefix_block_name(block),
            properties: match properties {
                Some(v) => v,
                None => Vec::new(),
            },
        };
        proof {
            if properties is None {
                assert(state@.properties =~= Map::<Seq<char>, Seq<char>>::empty());
            }
        }
        state
    }

    /// Gets the name of the block
    pub fn get_block(&self) -> (name: &String)
        ensures
            name@ == self.name(),
    {
        &self.block
    }

    /// Sets the name of the block
    pub fn set_block(&mut self, block: &str)
        ensures
            final(self).name() == normalized_name(block@),
            final(self).entries() == old(self).entries(),
    {
        self.block = BlockState::prefix_block_name(block)
    }

    /// The properties of the block, each a key and a value. Where a key
    /// occurs more than once, the last entry counts.
    pub fn properties(&self) -> (entries: &Vec<(String, String)>)
        ensures
            entries@ == self.entries(),
    {
        &self.properties
    }

    /// Give the property `key` the value `value`.
    pub fn set_property(&mut self, key: String, value: String)
        ensures
            final(self).name() == old(self).name(),
            final(self).entries() == old(self).entries().push((key, value)),
            final(self)@.properties == old(self)@.properties.insert(key@, value@),
    {
        let ghost before = self.properties@;
        self.properties.push((key, value));
        proof {
            assert(self.properties@.drop_last() =~= before);
            assert(property_map(self.properties@) =~= property_map(before).insert(key@, value@));
        }
    }

    /// The value of the property `key`, if the block has that property.
    pub fn property(&self, key: &str) -> (value: Option<&String>)
        ensures
            match value {
                Some(text) => self@.properties.contains_key(key@) && self@.properties[key@]
                    == text@,
                None => !self@.properties.contains_key(key@),
            },
    {
        let key = String::from_str(key);
        match find(&self.properties, &key) {
            Some(i) => Some(&self.properties[i].1),
            None => None,
        }
    }

    /// Whether this is the state of a position that holds no block.
    pub fn is_air(&self) -> (empty: bool)
        ensures
            empty <==> self@ == air(),
    {
        let air = BlockState::new("air", None);
        *self == air
    }

    /// The name under which a block is kept: in lower case, with
    /// `minecraft:` in front where it names no namespace.
    pub fn prefix_block_name(name: &str) -> (full: String)
        ensures
            full@ == normalized_name(name@),
    {
        if !has_separator(name) {
            let prefixed = String::from_str("minecraft:").concat(name);
            return to_lowercase(prefixed.as_str());
        }
        to_lowercase(name)
    }

    /// Read a block state from an entry of a region's palette.
    pub fn new_from_nbt(data: &NbtCompound) -> (r: Result<BlockState, BlockStateParseError>)
        ensures
            match r {
                Ok(state) => spec_block_state(*data) == Ok::<
                    BlockStateView,
                    crate::error::BlockStateFailure,
                >(state@),
                Err(e) => spec_block_state(*data) == Err::<
                    BlockStateView,
                    crate::error::BlockStateFailure,
                >(e@),
            },
    {
        let properties = match get_tag(data, "Properties") {
            Ok(tag) => match tag_as_compound(tag) {
                Some(inner) => BlockState::read_properties(inner),
                None => {
                    return Err(BlockStateParseError::WrongTag(String::from_str("Properties")));
                },
            },
            Err(_) => {
                let none: Vec<(String, String)> = Vec::new();
                assert(property_map(none@) =~= Map::<Seq<char>, Seq<char>>::empty());
                none
            },
        };
        let name = match get_str(data, "Name") {
            Ok(name) => name,
            Err(e) => {
                return Err(BlockStateParseError::from(e));
            },
        };
        Ok(BlockState { block: BlockState::prefix_block_name(name), properties })
    }

    /// The properties held by a compound: one for each of its string tags.
    fn read_properties(compound: &NbtCompound) -> (entries: Vec<(String, String)>)
        ensures
            property_map(entries@) == spec_properties(*compound),
    {
        let names = compound_names(compound);
        let mut entries: Vec<(String, String)> = Vec::new();
        let mut i: usize = 0;
        while i < names.len()
            invariant
                i <= names.len(),
                views(names@).to_set() == compound_entries(*compound).dom(),
                views(names@).no_duplicates(),
                forall|key: Seq<char>| #[trigger]
                    lookup(entries@, key) == if views(names@).take(i as int).contains(key) {
                        text_entry(*compound, key)
                    } else {
                        None
                    },
            decreases names.len() - i,
        {
            let ghost before = entries@;
            let name = &names[i];
            assert(views(names@)[i as int] == name@);
            assert(views(names@).to_set().contains(name@));
            assert(!views(names@).take(i as int).contains(name@));
            assert(views(names@).take(i + 1).drop_last() =~= views(names@).take(i as int));
            assert(views(names@).take(i + 1).last() == name@);
            match get_tag(compound, name.as_str()) {
                Ok(tag) => {
                    if let Some(text) = tag_as_string(tag) {
                        entries.push((name.clone(), text.clone()));
                        assert(entries@.drop_last() =~= before);
                    }
                },
                Err(_) => {},
            }
            proof {
                assert forall|key: Seq<char>| #[trigger]
                    lookup(entries@, key) == if views(names@).take(i + 1).contains(key) {
                        text_entry(*compound, key)
                    } else {
                        None
                    } by {
                    let wide = views(names@).take(i + 1);
                    let narrow = views(names@).take(i as int);
                    assert(lookup(before, key) == if narrow.contains(key) {
                        text_entry(*compound, key)
                    } else {
                        None
                    });
                    if key == name@ {
                        assert(wide[i as int] == key);
                    } else {
                        if narrow.contains(key) {
                            let j = choose|j: int| 0 <= j < narrow.len() && narrow[j] == key;
                            assert(wide[j] == key);
                        }
                        if wide.contains(key) {
                            let j = choose|j: int| 0 <= j < wide.len() && wide[j] == key;
                            assert(narrow[j] == key);
                        }
                    }
                }
            }
            i = i + 1;
        }
        proof {
            assert(views(names@).take(i as int) =~= views(names@));
            assert forall|key: Seq<char>| #[trigger]
                lookup(entries@, key) == text_entry(*compound, key) by {
                if !views(names@).contains(key) {
                    assert(!views(names@).to_set().contains(key));
                } else {
                    assert(views(names@).to_set().contains(key));
                }
            }
            assert(property_map(entries@) =~= spec_properties(*compound));
        }
        entries
    }

    /// The palette entry of this block state: a compound with the name and,
    /// where there are any, the properties.
    pub fn to_nbt(&self) -> (tag: NbtTag)
        ensures
            tag_content(tag) matches TagContent::Compound(data) && is_entry_of(data, self@),
    {
        let mut compound = new_compound();
        let mut properties = new_compound();
        let mut i: usize = 0;
        while i < self.properties.len()
            invariant
                i <= self.properties.len(),
                forall|key: Seq<char>| #[trigger]
                    field(properties, key) == match lookup(
                        self.properties@.take(i as int),
                        key,
                    ) {
                        Some(text) => Some(TagContent::Text(text)),
                        None => None,
                    },
            decreases self.properties.len() - i,
        {
            assert(self.properties@.take(i + 1).drop_last() =~= self.properties@.take(i as int));
            let ghost before = properties;
            let value = string_tag(self.properties[i].1.clone());
            insert_tag(&mut properties, self.properties[i].0.as_str(), value);
            proof {
                assert forall|key: Seq<char>| #[trigger]
                    field(properties, key) == match lookup(self.properties@.take(i + 1), key) {
                        Some(text) => Some(TagContent::Text(text)),
                        None => None,
                    } by {
                    assert(field(before, key) == match lookup(
                        self.properties@.take(i as int),
                        key,
                    ) {
                        Some(text) => Some(TagContent::Text(text)),
                        None => None,
                    });
                }
            }
            i = i + 1;
        }
        assert(self.properties@.take(i as int) =~= self.properties@);
        insert_tag(&mut compound, "Name", string_tag(self.block.clone()));
        if self.properties.len() > 0 {
            proof {
                let last = self.properties@.last();
                assert(lookup(self.properties@, last.0@) is Some);
                assert(self@.properties.contains_key(last.0@));
                assert(self@.properties.dom().contains(last.0@));
            }
            insert_tag(&mut compound, "Properties", compound_tag(properties));
            proof {
                reveal_strlit("Name");
                reveal_strlit("Properties");
                assert("Name"@ != "Properties"@) by {
                    assert("Name"@.len() == 4);
                    assert("Properties"@.len() == 10);
                }
            }
        } else {
            proof {
                reveal_strlit("Name");
                reveal_strlit("Properties");
                assert("Name"@.len() == 4);
                assert("Properties"@.len() == 10);
                assert(self@.properties.dom() =~= Set::empty());
            }
        }
        compound_tag(compound)
    }
}

impl Clone for BlockState {
    fn clone(&self) -> (copy: BlockState)
        ensures
            copy@ == self@,
    {
        let mut properties: Vec<(String, String)> = Vec::new();
        let mut i: usize = 0;
        while i < self.properties.len()
            invariant
                i <= self.properties.len(),
                properties@.len() == i,
                forall|j: int|
                    0 <= j < i ==> (#[trigger] properties@[j]).0@ == self.properties@[j].0@
                        && properties@[j].1@ == self.properties@[j].1@,
            decreases self.properties.len() - i,
        {
            properties.push((self.properties[i].0.clone(), self.properties[i].1.clone()));
            i = i + 1;
        }
        let copy = BlockState { block: self.block.clone(), properties };
        proof {
            lemma_lookup_same(copy.properties@, self.properties@);
            copy.lemma_same_view(self);
        }
        copy
    }
}

/// Two lists of entries with the same keys and values, place by place, give
/// every key the same value.
pub proof fn lemma_lookup_same(a: Seq<(String, String)>, b: Seq<(String, String)>)
    requires
        a.len() == b.len(),
        forall|i: int|
            0 <= i < a.len() ==> (#[trigger] a[i]).0@ == b[i].0@ && a[i].1@ == b[i].1@,
    ensures
        forall|key: Seq<char>| #[trigger] lookup(a, key) == lookup(b, key),
    decreases a.len(),
{
    if a.len() > 0 {
        assert(a[a.len() - 1].0@ == b[a.len() - 1].0@);
        lemma_lookup_same(a.drop_last(), b.drop_last());
        assert forall|key: Seq<char>| #[trigger] lookup(a, key) == lookup(b, key) by {
            assert(lookup(a.drop_last(), key) == lookup(b.drop_last(), key));
        }
    }
}

impl PartialEq for BlockState {
    fn eq(&self, other: &BlockState) -> (equal: bool) {
        proof {
            self.lemma_same_view(other);
        }
        self.block == other.block && covers(&self.properties, &other.properties) && covers(
            &other.properties,
            &self.properties,
        )
    }
}

impl PartialEqSpecImpl for BlockState {
    open spec fn obeys_eq_spec() -> bool {
        true
    }

    open spec fn eq_spec(&self, other: &BlockState) -> bool {
        self@ == other@
    }
}

impl Eq for BlockState {

}

} // verus!
