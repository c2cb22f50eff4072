//! The values that travel through the pipeline, and their mathematical views.

use vstd::prelude::*;

verus! {

/// Which blob of an event a property was found in.
#[derive(Debug, Clone, Copy, PartialEq, Eq, Hash, Structural)]
pub enum PropertyType {
    Event,
    Person,
    Group0,
    Group1,
    Group2,
    Group3,
    Group4,
}

impl PropertyType {
    /// The name of the type in output records.
    pub open spec fn name(self) -> Seq<char> {
        match self {
            PropertyType::Event => "event"@,
            PropertyType::Person => "person"@,
            PropertyType::Group0 => "group_0"@,
            PropertyType::Group1 => "group_1"@,
            PropertyType::Group2 => "group_2"@,
            PropertyType::Group3 => "group_3"@,
            PropertyType::Group4 => "group_4"@,
        }
    }

    /// The name of the type in output records.
    pub fn as_str(&self) -> (name: &'static str)
        ensures
            name@ == self.name(),
    {
        match self {
            PropertyType::Event => "event",
            PropertyType::Person => "person",
            PropertyType::Group0 => "group_0",
            PropertyType::Group1 => "group_1",
            PropertyType::Group2 => "group_2",
            PropertyType::Group3 => "group_3",
            PropertyType::Group4 => "group_4",
        }
    }
}

/// Two types with the same name are the same type, so a record read back from
/// the output topic says which blob its property came from.
pub proof fn lemma_property_type_names_are_distinct(a: PropertyType, b: PropertyType)
    ensures
        a.name() == b.name() <==> a == b,
{
    reveal_strlit("event");
    reveal_strlit("person");
    reveal_strlit("group_0");
    reveal_strlit("group_1");
    reveal_strlit("group_2");
    reveal_strlit("group_3");
    reveal_strlit("group_4");
    if a != b && a.name() == b.name() {
        assert(a.name()[0] == b.name()[0]);
        assert(a.name()[6] == b.name()[6]);
    }
}

/// The type of an event's own properties is named `event`, that of the person `person`,
/// and that of the group type with index `n` is `group_` with `n` behind it.
pub proof fn lemma_property_types_are_named_after_their_blobs(n: u8)
    requires
        n <= 4,
    ensures
        PropertyType::Event.name() == "event"@,
        PropertyType::Person.name() == "person"@,
        (match n {
            0 => PropertyType::Group0,
            1 => PropertyType::Group1,
            2 => PropertyType::Group2,
            3 => PropertyType::Group3,
            _ => PropertyType::Group4,
        }).name() == "group_"@.push((48 + n) as char),
{
    reveal_strlit("group_");
    reveal_strlit("group_0");
    reveal_strlit("group_1");
    reveal_strlit("group_2");
    reveal_strlit("group_3");
    reveal_strlit("group_4");
    assert("group_0"@ =~= "group_"@.push((48 + 0u8) as char));
    assert("group_1"@ =~= "group_"@.push((48 + 1u8) as char));
    assert("group_2"@ =~= "group_"@.push((48 + 2u8) as char));
    assert("group_3"@ =~= "group_"@.push((48 + 3u8) as char));
    assert("group_4"@ =~= "group_"@.push((48 + 4u8) as char));
}

/// What a `TupleKey` stands for: its fields, with strings as character sequences.
#[verifier::ext_equal]
pub struct TupleView {
    pub team_id: i64,
    pub property_type: PropertyType,
    pub property_key: Seq<char>,
    pub property_value: Seq<char>,
}

/// One `(team, type, key, value)` combination, the unit of counting.
#[derive(Debug, PartialEq, Eq, Hash)]
pub struct TupleKey {
    pub team_id: i64,
    pub property_type: PropertyType,
    pub property_key: String,
    pub property_value: String,
}

impl View for TupleKey {
    type V = TupleView;

    open spec fn view(&self) -> TupleView {
        TupleView {
            team_id: self.team_id,
            property_type: self.property_type,
            property_key: self.property_key@,
            property_value: self.property_value@,
        }
    }
}

impl Clone for TupleKey {
    fn clone(&self) -> (copy: Self)
        ensures
            copy@ == self@,
            copy.team_id == self.team_id,
            copy.property_type == self.property_type,
            copy.property_key@ == self.property_key@,
            copy.property_value@ == self.property_value@,
    {
        TupleKey {
            team_id: self.team_id,
            property_type: self.property_type,
            property_key: self.property_key.clone(),
            property_value: self.property_value.clone(),
        }
    }
}

impl TupleKey {
    /// Whether both keys name the same tuple.
    pub fn same_as(&self, other: &TupleKey) -> (same: bool)
        ensures
            same == (self@ == other@),
            same <==> {
                &&& self.team_id == other.team_id
                &&& self.property_type == other.property_type
                &&& self.property_key@ == other.property_key@
                &&& self.property_value@ == other.property_value@
            },
    {
        self.team_id == other.team_id && self.property_type == other.property_type
            && self.property_key == other.property_key && self.property_value
            == other.property_value
    }
}

/// Two keys stand for one tuple exactly where they agree in all four fields, and the
/// tuple shows those fields as they are.
pub proof fn lemma_tuple_shows_its_fields(a: TupleKey, b: TupleKey)
    ensures
        a@.team_id == a.team_id,
        a@.property_type == a.property_type,
        a@.property_key == a.property_key@,
        a@.property_value == a.property_value@,
        a@ == b@ <==> {
            &&& a.team_id == b.team_id
            &&& a.property_type == b.property_type
            &&& a.property_key@ == b.property_key@
            &&& a.property_value@ == b.property_value@
        },
{
}

/// The views of a list of tuples, in order.
pub open spec fn tuple_views(tuples: Seq<TupleKey>) -> Seq<TupleView> {
    tuples.map_values(|tuple: TupleKey| tuple@)
}

/// A list of tuples has a view for each of them, at its place.
pub proof fn lemma_tuple_views_are_in_place(tuples: Seq<TupleKey>)
    ensures
        tuple_views(tuples).len() == tuples.len(),
        forall|i: int| 0 <= i < tuples.len() ==> #[trigger] tuple_views(tuples)[i] == tuples[i]@,
{
}

/// An analytics event: a team and up to seven blobs of JSON text.
#[derive(Debug)]
pub struct Event {
    pub team_id: i64,
    pub properties: Option<String>,
    pub person_properties: Option<String>,
    pub group0_properties: Option<String>,
    pub group1_properties: Option<String>,
    pub group2_properties: Option<String>,
    pub group3_properties: Option<String>,
    pub group4_properties: Option<String>,
}

/// A group-identify message: one blob of JSON text for the group type with the
/// given index.
#[derive(Debug)]
pub struct GroupIdentify {
    pub team_id: i64,
    pub group_type_index: u8,
    pub group_properties: Option<String>,
}

/// One record of the output topic.
#[derive(Debug)]
pub struct OutputMessage {
    pub team_id: i64,
    pub property_type: String,
    pub property_key: String,
    pub property_value: String,
    pub property_count: u64,
}

} // verus!
