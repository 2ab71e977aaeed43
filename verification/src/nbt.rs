//! The tag tree that a schematic is stored as, as this library sees it.
//!
//! The tree itself belongs to the `quartz_nbt` crate. Nothing in this module
//! is proved: each function states what the call it makes is taken to do, over
//! spec functions that stand for what a tag, a compound, a list and an error
//! hold.

use quartz_nbt::io::{write_nbt, Flavor, NbtIoError};
use quartz_nbt::{NbtCompound, NbtList, NbtReprError, NbtStructureError, NbtTag};
use vstd::prelude::*;

verus! {

/// `quartz_nbt::NbtTag`: one node of the tree.
#[verifier::external_type_specification]
#[verifier::external_body]
pub struct ExNbtTag(NbtTag);

/// `quartz_nbt::NbtList`: a sequence of tags.
#[verifier::external_type_specification]
#[verifier::external_body]
pub struct ExNbtList(NbtList);

/// `quartz_nbt::NbtCompound`: tags by name.
#[verifier::external_type_specification]
#[verifier::external_body]
pub struct ExNbtCompound(NbtCompound);

/// `quartz_nbt::NbtReprError`: why a tag could not be had from a compound.
#[verifier::external_type_specification]
#[verifier::external_body]
pub struct ExNbtReprError(NbtReprError);

/// `quartz_nbt::NbtStructureError`: a tag that is missing or of another kind.
#[verifier::external_type_specification]
#[verifier::external_body]
pub struct ExNbtStructureError(NbtStructureError);

/// `quartz_nbt::io::NbtIoError`: why a tree could not be written or read.
#[verifier::external_type_specification]
#[verifier::external_body]
pub struct ExNbtIoError(NbtIoError);

/// What a tag holds, for the kinds of tag that a schematic is made of. Every
/// other kind (bytes, shorts, floats, byte and int arrays) counts as `Other`.
pub enum TagContent {
    /// `NbtTag::Int`
    Int(i32),
    /// `NbtTag::Long`
    Long(i64),
    /// `NbtTag::String`
    Text(Seq<char>),
    /// `NbtTag::LongArray`
    LongArray(Seq<i64>),
    /// `NbtTag::List`
    List(NbtList),
    /// `NbtTag::Compound`
    Compound(NbtCompound),
    /// Any other variant of `NbtTag`
    Other,
}

/// The variant of an `NbtTag` and the value in it.
pub uninterp spec fn tag_content(tag: NbtTag) -> TagContent;

/// The tags of an `NbtCompound`, by name.
pub uninterp spec fn compound_entries(compound: NbtCompound) -> Map<Seq<char>, NbtTag>;

/// The tags of an `NbtList`, in order.
pub uninterp spec fn list_items(list: NbtList) -> Seq<NbtTag>;

/// The structure error inside an `NbtReprError`, if it is one of that variant.
pub uninterp spec fn structure_part(error: NbtReprError) -> Option<Box<NbtStructureError>>;

/// What a structure error says is wrong, as far as this library tells its
/// callers: the name of a missing tag, or the kind of tag that was asked
/// for where a tag of another kind was found.
pub enum StructureKind {
    /// No tag has this name
    MissingTag(Seq<char>),
    /// A tag of the kind named here was asked for and another kind was found
    TypeMismatch(Seq<char>),
    /// A list has no tag at the index asked for
    InvalidIndex,
}

/// What an `NbtStructureError` holds: its variant, with the name of the
/// missing tag or of the kind of tag that was expected.
pub uninterp spec fn structure_kind(error: NbtStructureError) -> StructureKind;

/// What is wrong where the tag called `name` is missing from `compound` or
/// is not of the kind called `expected`.
pub open spec fn lookup_failure(
    compound: NbtCompound,
    name: Seq<char>,
    expected: Seq<char>,
) -> StructureKind {
    if compound_entries(compound).contains_key(name) {
        StructureKind::TypeMismatch(expected)
    } else {
        StructureKind::MissingTag(name)
    }
}

/// Whether `error` is a structure error that says `kind`.
pub open spec fn says(error: NbtReprError, kind: StructureKind) -> bool {
    structure_part(error) matches Some(inner) && structure_kind(*inner) == kind
}

/// What the tag called `name` in `compound` holds, if there is such a tag.
pub open spec fn field(compound: NbtCompound, name: Seq<char>) -> Option<TagContent> {
    if compound_entries(compound).contains_key(name) {
        Some(tag_content(compound_entries(compound)[name]))
    } else {
        None
    }
}

/// The entries of a compound without tags.
pub open spec fn no_entries() -> Map<Seq<char>, NbtTag> {
    Map::empty()
}

/// The views of a sequence of strings.
pub open spec fn views(names: Seq<String>) -> Seq<Seq<char>> {
    Seq::new(names.len(), |i: int| names[i]@)
}

/// `NbtCompound::get::<_, &NbtTag>`: the tag called `name`; a structure
/// error that names the missing tag where the compound has none of that name.
#[verifier::external_body]
pub(crate) fn get_tag<'a>(compound: &'a NbtCompound, name: &str) -> (r: Result<
    &'a NbtTag,
    NbtReprError,
>)
    ensures
        r matches Ok(tag) ==> compound_entries(*compound).contains_key(name@) && *tag
            == compound_entries(*compound)[name@],
        r matches Err(e) ==> !compound_entries(*compound).contains_key(name@),
        r matches Err(e) ==> structure_part(e) matches Some(inner) && structure_kind(*inner)
            == StructureKind::MissingTag(name@),
{
    compound.get::<_, &NbtTag>(name)
}

/// `NbtCompound::get::<_, &str>`: the text of the string tag called `name`;
/// a structure error where there is no such tag, which it then names, or
/// where the tag is no string, which it then says was expected.
#[verifier::external_body]
pub(crate) fn get_str<'a>(compound: &'a NbtCompound, name: &str) -> (r: Result<
    &'a str,
    NbtReprError,
>)
    ensures
        r matches Ok(text) ==> field(*compound, name@) == Some(TagContent::Text(text@)),
        r matches Err(e) ==> !(field(*compound, name@) matches Some(TagContent::Text(_))),
        r matches Err(e) ==> structure_part(e) matches Some(inner) && structure_kind(*inner)
            == lookup_failure(*compound, name@, "String"@),
{
    compound.get::<_, &str>(name)
}

/// `NbtCompound::get::<_, i32>`: the value of the int tag called `name`; a
/// structure error where there is no such tag, which it then names, or
/// where the tag is no int, which it then says was expected.
#[verifier::external_body]
pub(crate) fn get_int(compound: &NbtCompound, name: &str) -> (r: Result<i32, NbtReprError>)
    ensures
        r matches Ok(value) ==> field(*compound, name@) == Some(TagContent::Int(value)),
        r matches Err(e) ==> !(field(*compound, name@) matches Some(TagContent::Int(_))),
        r matches Err(e) ==> structure_part(e) matches Some(inner) && structure_kind(*inner)
            == lookup_failure(*compound, name@, "Int"@),
{
    compound.get::<_, i32>(name)
}

/// `NbtCompound::get::<_, i64>`: the value of the long tag called `name`; a
/// structure error where there is no such tag, which it then names, or
/// where the tag is no long, which it then says was expected.
#[verifier::external_body]
pub(crate) fn get_long(compound: &NbtCompound, name: &str) -> (r: Result<i64, NbtReprError>)
    ensures
        r matches Ok(value) ==> field(*compound, name@) == Some(TagContent::Long(value)),
        r matches Err(e) ==> !(field(*compound, name@) matches Some(TagContent::Long(_))),
        r matches Err(e) ==> structure_part(e) matches Some(inner) && structure_kind(*inner)
            == lookup_failure(*compound, name@, "Long"@),
{
    compound.get::<_, i64>(name)
}

/// `NbtCompound::get::<_, &NbtCompound>`: the compound tag called `name`; a
/// structure error where there is no such tag, which it then names, or
/// where the tag is no compound, which it then says was expected.
#[verifier::external_body]
pub(crate) fn get_compound<'a>(compound: &'a NbtCompound, name: &str) -> (r: Result<
    &'a NbtCompound,
    NbtReprError,
>)
    ensures
        r matches Ok(inner) ==> field(*compound, name@) == Some(TagContent::Compound(*inner)),
        r matches Err(e) ==> !(field(*compound, name@) matches Some(TagContent::Compound(_))),
        r matches Err(e) ==> structure_part(e) matches Some(inner) && structure_kind(*inner)
            == lookup_failure(*compound, name@, "Compound"@),
{
    compound.get::<_, &NbtCompound>(name)
}

/// The names of the tags of a compound, read off `NbtCompound::inner`: each
/// name once, in no order that could be stated.
#[verifier::external_body]
pub(crate) fn compound_names(compound: &NbtCompound) -> (names: Vec<String>)
    ensures
        views(names@).to_set() == compound_entries(*compound).dom(),
        views(names@).no_duplicates(),
{
    compound.inner().keys().cloned().collect()
}

/// `NbtCompound::clone`: a compound that holds the same tags.
#[verifier::external_body]
pub(crate) fn clone_compound(compound: &NbtCompound) -> (copy: NbtCompound)
    ensures
        copy == *compound,
{
    compound.clone()
}

/// `NbtList::clone`: a list that holds the same tags.
#[verifier::external_body]
pub(crate) fn clone_list(list: &NbtList) -> (copy: NbtList)
    ensures
        copy == *list,
{
    list.clone()
}

/// The list in a tag of the variant `NbtTag::List`.
#[verifier::external_body]
pub(crate) fn tag_as_list(tag: &NbtTag) -> (r: Option<&NbtList>)
    ensures
        r matches Some(list) ==> tag_content(*tag) == TagContent::List(*list),
        r is None ==> !(tag_content(*tag) is List),
{
    match tag {
        NbtTag::List(list) => Some(list),
        _ => None,
    }
}

/// The compound in a tag of the variant `NbtTag::Compound`.
#[verifier::external_body]
pub(crate) fn tag_as_compound(tag: &NbtTag) -> (r: Option<&NbtCompound>)
    ensures
        r matches Some(compound) ==> tag_content(*tag) == TagContent::Compound(*compound),
        r is None ==> !(tag_content(*tag) is Compound),
{
    match tag {
        NbtTag::Compound(compound) => Some(compound),
        _ => None,
    }
}

/// The words in a tag of the variant `NbtTag::LongArray`.
#[verifier::external_body]
pub(crate) fn tag_as_long_array(tag: &NbtTag) -> (r: Option<&Vec<i64>>)
    ensures
        r matches Some(words) ==> tag_content(*tag) == TagContent::LongArray(words@),
        r is None ==> !(tag_content(*tag) is LongArray),
{
    match tag {
        NbtTag::LongArray(words) => Some(words),
        _ => None,
    }
}

/// The text in a tag of the variant `NbtTag::String`.
#[verifier::external_body]
pub(crate) fn tag_as_string(tag: &NbtTag) -> (r: Option<&String>)
    ensures
        r matches Some(text) ==> tag_content(*tag) == TagContent::Text(text@),
        r is None ==> !(tag_content(*tag) is Text),
{
    match tag {
        NbtTag::String(text) => Some(text),
        _ => None,
    }
}

/// The structure error in an `NbtReprError` of the variant `Structure`.
#[verifier::external_body]
pub(crate) fn into_structure_error(error: NbtReprError) -> (r: Option<Box<NbtStructureError>>)
    ensures
        r == structure_part(error),
{
    match error {
        NbtReprError::Structure(inner) => Some(inner),
        NbtReprError::Custom(_) => None,
    }
}

/// `NbtList::len`: the number of tags in a list.
#[verifier::external_body]
pub(crate) fn list_len(list: &NbtList) -> (len: usize)
    ensures
        len == list_items(*list).len(),
{
    list.len()
}

/// The tag at `index` of a list, by the list's `Index` impl.
#[verifier::external_body]
pub(crate) fn list_get(list: &NbtList, index: usize) -> (tag: &NbtTag)
    requires
        index < list_items(*list).len(),
    ensures
        *tag == list_items(*list)[index as int],
{
    &list[index]
}

/// `NbtCompound::new`: a compound without tags.
#[verifier::external_body]
pub(crate) fn new_compound() -> (compound: NbtCompound)
    ensures
        compound_entries(compound) == no_entries(),
{
    NbtCompound::new()
}

/// `NbtCompound::insert`: puts `tag` under `name`, in place of a tag that
/// had that name.
#[verifier::external_body]
pub(crate) fn insert_tag(compound: &mut NbtCompound, name: &str, tag: NbtTag)
    ensures
        compound_entries(*final(compound)) == compound_entries(*old(compound)).insert(name@, tag),
{
    compound.insert(name, tag);
}

/// `NbtList::new`: a list without tags.
#[verifier::external_body]
pub(crate) fn new_list() -> (list: NbtList)
    ensures
        list_items(list) == Seq::<NbtTag>::empty(),
{
    NbtList::new()
}

/// `NbtList::push`: adds `tag` at the end of the list.
#[verifier::external_body]
pub(crate) fn list_push(list: &mut NbtList, tag: NbtTag)
    ensures
        list_items(*final(list)) == list_items(*old(list)).push(tag),
{
    list.push(tag);
}

/// `NbtTag::from` of an `i32`: an int tag.
#[verifier::external_body]
pub(crate) fn int_tag(value: i32) -> (tag: NbtTag)
    ensures
        tag_content(tag) == TagContent::Int(value),
{
    NbtTag::from(value)
}

/// `NbtTag::from` of an `i64`: a long tag.
#[verifier::external_body]
pub(crate) fn long_tag(value: i64) -> (tag: NbtTag)
    ensures
        tag_content(tag) == TagContent::Long(value),
{
    NbtTag::from(value)
}

/// `NbtTag::from` of a `String`: a string tag.
#[verifier::external_body]
pub(crate) fn string_tag(text: String) -> (tag: NbtTag)
    ensures
        tag_content(tag) == TagContent::Text(text@),
{
    NbtTag::from(text)
}

/// `NbtTag::from` of a `Vec<i64>`: a long-array tag.
#[verifier::external_body]
pub(crate) fn long_array_tag(words: Vec<i64>) -> (tag: NbtTag)
    ensures
        tag_content(tag) == TagContent::LongArray(words@),
{
    NbtTag::from(words)
}

/// `NbtTag::from` of an `NbtList`: a list tag.
#[verifier::external_body]
pub(crate) fn list_tag(list: NbtList) -> (tag: NbtTag)
    ensures
        tag_content(tag) == TagContent::List(list),
{
    NbtTag::from(list)
}

/// `NbtTag::from` of an `NbtCompound`: a compound tag.
#[verifier::external_body]
pub(crate) fn compound_tag(compound: NbtCompound) -> (tag: NbtTag)
    ensures
        tag_content(tag) == TagContent::Compound(compound),
{
    NbtTag::from(compound)
}

/// `quartz_nbt::io::write_nbt` with an empty root name and gzip framing,
/// into an empty buffer. The bytes depend on the order in which the crate
/// walks its hash maps, so only their frame is stated: they begin with the
/// two bytes that every gzip stream begins with.
#[verifier::external_body]
pub(crate) fn write_compressed(root: &NbtCompound) -> (r: Result<Vec<u8>, NbtIoError>)
    ensures
        r matches Ok(bytes) ==> bytes@.len() >= 2 && bytes@[0] == 0x1f && bytes@[1] == 0x8b,
{
    let mut buffer = Vec::new();
    write_nbt(&mut buffer, None, root, Flavor::GzCompressed)?;
    Ok(buffer)
}

} // verus!
