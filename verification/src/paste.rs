//! A clipboard entry as clients send it: a JSON object of which the server reads a few fields and
//! hands on the rest as it is.
use vstd::prelude::*;

use crate::text;

verus! {

/// The field that names the device an entry comes from.
pub const FIELD_APP_INSTANCE_ID: &'static str = "appInstanceId";

/// The field with the number of an entry.
pub const FIELD_ID: &'static str = "id";

/// The field with the kind of an entry.
pub const FIELD_PASTE_TYPE: &'static str = "pasteType";

/// The field with the size of an entry, in bytes.
pub const FIELD_SIZE: &'static str = "size";

/// The value of a field.
#[derive(Debug)]
pub enum Field {
    /// A whole number.
    Integer(i128),
    Text(String),
    /// Anything else, as JSON.
    Other(String),
}

/// A [`Field`] with its texts by their characters.
pub enum FieldView {
    Integer(i128),
    Text(Seq<char>),
    Other(Seq<char>),
}

impl View for Field {
    type V = FieldView;

    open spec fn view(&self) -> FieldView {
        match self {
            Field::Integer(number) => FieldView::Integer(*number),
            Field::Text(value) => FieldView::Text(value@),
            Field::Other(json) => FieldView::Other(json@),
        }
    }
}

impl Clone for Field {
    fn clone(&self) -> (copy: Self)
        ensures
            copy == *self,
    {
        match self {
            Field::Integer(number) => Field::Integer(*number),
            Field::Text(value) => Field::Text(value.clone()),
            Field::Other(json) => Field::Other(json.clone()),
        }
    }
}

/// A clipboard entry.
#[derive(Debug)]
pub enum Paste {
    /// An object: its fields, each name once.
    Object(Vec<(String, Field)>),
    /// Something else, as JSON.
    Other(String),
}

/// A [`Paste`] with its texts by their characters.
#[verifier::ext_equal]
pub enum PasteView {
    Object(Seq<(Seq<char>, FieldView)>),
    Other(Seq<char>),
}

/// Fields with their texts by their characters.
pub open spec fn field_views(fields: Seq<(String, Field)>) -> Seq<(Seq<char>, FieldView)> {
    fields.map_values(|field: (String, Field)| (field.0@, field.1@))
}

impl View for Paste {
    type V = PasteView;

    open spec fn view(&self) -> PasteView {
        match self {
            Paste::Object(fields) => PasteView::Object(field_views(fields@)),
            Paste::Other(json) => PasteView::Other(json@),
        }
    }
}

/// The place of the name among the fields, or their end where it is not there.
pub open spec fn place_of(fields: Seq<(Seq<char>, FieldView)>, name: Seq<char>) -> int
    decreases fields.len(),
{
    if fields.len() == 0 || fields[0].0 == name {
        0
    } else {
        1 + place_of(fields.drop_first(), name)
    }
}

/// The fields with this value for the name, in place of the one that it had.
pub open spec fn with_field(
    fields: Seq<(Seq<char>, FieldView)>,
    name: Seq<char>,
    value: FieldView,
) -> Seq<(Seq<char>, FieldView)> {
    if place_of(fields, name) < fields.len() {
        fields.update(place_of(fields, name), (name, value))
    } else {
        fields.push((name, value))
    }
}

impl PasteView {
    /// The value of the field with that name.
    pub open spec fn field(self, name: Seq<char>) -> Option<FieldView> {
        match self {
            PasteView::Object(fields) => if place_of(fields, name) < fields.len() {
                Some(fields[place_of(fields, name)].1)
            } else {
                None
            },
            PasteView::Other(_) => None,
        }
    }

    /// The field with that name as a signed number of 64 bits.
    pub open spec fn signed(self, name: Seq<char>) -> Option<i64> {
        match self.field(name) {
            Some(FieldView::Integer(number)) => if i64::MIN <= number <= i64::MAX {
                Some(number as i64)
            } else {
                None
            },
            _ => None,
        }
    }

    /// The field with that name as an unsigned number of 64 bits.
    pub open spec fn unsigned(self, name: Seq<char>) -> Option<u64> {
        match self.field(name) {
            Some(FieldView::Integer(number)) => if 0 <= number <= u64::MAX {
                Some(number as u64)
            } else {
                None
            },
            _ => None,
        }
    }

    /// The entry as the server hands it on: it comes from the server, and has the number that the
    /// server gave it, if any.
    pub open spec fn normalized(self, server: Seq<char>, paste_id: Option<i64>) -> PasteView {
        match self {
            PasteView::Object(fields) => {
                let named = with_field(fields, FIELD_APP_INSTANCE_ID@, FieldView::Text(server));
                PasteView::Object(
                    match paste_id {
                        Some(id) => with_field(
                            named,
                            FIELD_ID@,
                            FieldView::Integer(id as i128),
                        ),
                        None => named,
                    },
                )
            },
            PasteView::Other(json) => self,
        }
    }
}

proof fn lemma_place(fields: Seq<(Seq<char>, FieldView)>, name: Seq<char>)
    ensures
        0 <= place_of(fields, name) <= fields.len(),
        place_of(fields, name) < fields.len() ==> fields[place_of(fields, name)].0 == name,
        forall|i: int| 0 <= i < place_of(fields, name) ==> (#[trigger] fields[i]).0 != name,
    decreases fields.len(),
{
    if fields.len() > 0 && fields[0].0 != name {
        let rest = fields.drop_first();
        lemma_place(rest, name);
        assert forall|i: int| 0 <= i < place_of(fields, name) implies (#[trigger] fields[i]).0
            != name by {
            if i > 0 {
                assert(rest[i - 1] == fields[i]);
            }
        }
    }
}

proof fn lemma_place_is(fields: Seq<(Seq<char>, FieldView)>, name: Seq<char>, place: int)
    requires
        0 <= place <= fields.len(),
        place < fields.len() ==> fields[place].0 == name,
        forall|i: int| 0 <= i < place ==> (#[trigger] fields[i]).0 != name,
    ensures
        place_of(fields, name) == place,
{
    lemma_place(fields, name);
    let found = place_of(fields, name);
    if found < place {
        assert(fields[found].0 != name);
    }
    if place < found {
        assert(fields[place].0 != name);
    }
}

proof fn lemma_with_field(
    fields: Seq<(Seq<char>, FieldView)>,
    name: Seq<char>,
    value: FieldView,
    other: Seq<char>,
)
    ensures
        PasteView::Object(with_field(fields, name, value)).field(other) == if other == name {
            Some(value)
        } else {
            PasteView::Object(fields).field(other)
        },
{
    let after = with_field(fields, name, value);
    lemma_place(fields, name);
    lemma_place(fields, other);
    if other == name {
        lemma_place_is(after, name, place_of(fields, name));
    } else {
        let place = place_of(fields, other);
        if place < fields.len() {
            lemma_place_is(after, other, place);
        } else {
            lemma_place_is(after, other, after.len() as int);
        }
    }
}

/// What the server hands on names the server as its origin and has the number that the server gave
/// it, if any; every other field is as it was.
pub proof fn law_normalized(
    fields: Seq<(Seq<char>, FieldView)>,
    server: Seq<char>,
    paste_id: Option<i64>,
    name: Seq<char>,
)
    ensures
        PasteView::Object(fields).normalized(server, paste_id).field(name) == if name
            == FIELD_APP_INSTANCE_ID@ {
            Some(FieldView::Text(server))
        } else if name == FIELD_ID@ && paste_id is Some {
            Some(FieldView::Integer(paste_id->0 as i128))
        } else {
            PasteView::Object(fields).field(name)
        },
{
    reveal_strlit("appInstanceId");
    reveal_strlit("id");
    let named = with_field(fields, FIELD_APP_INSTANCE_ID@, FieldView::Text(server));
    lemma_with_field(fields, FIELD_APP_INSTANCE_ID@, FieldView::Text(server), name);
    assert(FIELD_APP_INSTANCE_ID@ != FIELD_ID@) by {
        assert(FIELD_APP_INSTANCE_ID@.len() != FIELD_ID@.len());
    }
    if let Some(id) = paste_id {
        lemma_with_field(named, FIELD_ID@, FieldView::Integer(id as i128), name);
    }
}

fn find(fields: &Vec<(String, Field)>, name: &str) -> (place: usize)
    ensures
        place == place_of(field_views(fields@), name@),
        place <= fields@.len(),
{
    let ghost all = field_views(fields@);
    let mut i: usize = 0;
    assert(all.skip(0) =~= all);
    while i < fields.len()
        invariant
            i <= fields@.len(),
            all == field_views(fields@),
            place_of(all.skip(i as int), name@) + i == place_of(all, name@),
        decreases fields@.len() - i,
    {
        if text::same_text(fields[i].0.as_str(), name) {
            assert(all.skip(i as int)[0].0 == name@);
            return i;
        }
        assert(all.skip(i as int)[0].0 == fields@[i as int].0@);
        assert(all.skip(i as int).drop_first() =~= all.skip(i + 1));
        i += 1;
    }
    i
}

fn set(fields: &mut Vec<(String, Field)>, name: &str, value: Field)
    ensures
        field_views(final(fields)@) == with_field(field_views(old(fields)@), name@, value@),
{
    let ghost before = field_views(fields@);
    let place = find(fields, name);
    if place < fields.len() {
        fields[place] = (name.to_owned(), value);
    } else {
        fields.push((name.to_owned(), value));
    }
    assert(field_views(fields@) =~= with_field(before, name@, value@));
}

fn copy_fields(fields: &Vec<(String, Field)>) -> (copy: Vec<(String, Field)>)
    ensures
        copy@ == fields@,
{
    let mut copy: Vec<(String, Field)> = Vec::new();
    let mut i: usize = 0;
    while i < fields.len()
        invariant
            i <= fields@.len(),
            copy@ == fields@.take(i as int),
        decreases fields@.len() - i,
    {
        copy.push((fields[i].0.clone(), fields[i].1.clone()));
        i += 1;
        assert(fields@.take(i as int) =~= fields@.take(i - 1).push(fields@[i - 1]));
    }
    assert(fields@.take(i as int) =~= fields@);
    copy
}

impl Clone for Paste {
    fn clone(&self) -> (copy: Self)
        ensures
            copy@ == self@,
    {
        match self {
            Paste::Object(fields) => Paste::Object(copy_fields(fields)),
            Paste::Other(json) => Paste::Other(json.clone()),
        }
    }
}

impl Paste {
    fn integer(&self, name: &str) -> (number: Option<i128>)
        ensures
            match number {
                Some(number) => self@.field(name@) == Some(FieldView::Integer(number)),
                None => !(self@.field(name@) matches Some(FieldView::Integer(_))),
            },
    {
        match self {
            Paste::Object(fields) => {
                let place = find(fields, name);
                if place < fields.len() {
                    match &fields[place].1 {
                        Field::Integer(number) => Some(*number),
                        _ => None,
                    }
                } else {
                    None
                }
            },
            Paste::Other(_) => None,
        }
    }

    /// The field with that name as a signed number of 64 bits.
    pub fn signed(&self, name: &str) -> (number: Option<i64>)
        ensures
            number == self@.signed(name@),
    {
        match self.integer(name) {
            Some(number) => if i64::MIN as i128 <= number && number <= i64::MAX as i128 {
                Some(number as i64)
            } else {
                None
            },
            None => None,
        }
    }

    /// The field with that name as an unsigned number of 64 bits.
    pub fn unsigned(&self, name: &str) -> (number: Option<u64>)
        ensures
            number == self@.unsigned(name@),
    {
        match self.integer(name) {
            Some(number) => if 0 <= number && number <= u64::MAX as i128 {
                Some(number as u64)
            } else {
                None
            },
            None => None,
        }
    }
}

/// The entry as the server hands it on.
pub fn normalize_paste(paste: &Paste, server: &str, paste_id: Option<i64>) -> (normal: Paste)
    ensures
        normal@ == paste@.normalized(server@, paste_id),
{
    match paste {
        Paste::Object(fields) => {
            let mut fields = copy_fields(fields);
            set(&mut fields, FIELD_APP_INSTANCE_ID, Field::Text(server.to_owned()));
            if let Some(id) = paste_id {
                set(&mut fields, FIELD_ID, Field::Integer(id as i128));
            }
            Paste::Object(fields)
        },
        Paste::Other(json) => Paste::Other(json.clone()),
    }
}

/// A field has the value of the first of its name, and only an object has fields.
pub proof fn law_field(fields: Seq<(Seq<char>, FieldView)>, name: Seq<char>, place: int)
    requires
        0 <= place <= fields.len(),
        place < fields.len() ==> fields[place].0 == name,
        forall|i: int| 0 <= i < place ==> (#[trigger] fields[i]).0 != name,
    ensures
        place < fields.len() ==> PasteView::Object(fields).field(name) == Some(fields[place].1),
        place == fields.len() ==> PasteView::Object(fields).field(name) is None,
{
    lemma_place_is(fields, name, place);
}

/// A field is a number of 64 bits exactly where it is a whole number that fits, and then it is that
/// number.
pub proof fn law_number_fields(paste: PasteView, name: Seq<char>, number: i128)
    ensures
        paste.field(name) == Some(FieldView::Integer(number)) ==> {
            &&& paste.signed(name) is Some <==> -0x8000_0000_0000_0000 <= number
                < 0x8000_0000_0000_0000
            &&& paste.signed(name) matches Some(value) ==> value == number
            &&& paste.unsigned(name) is Some <==> 0 <= number < 0x1_0000_0000_0000_0000
            &&& paste.unsigned(name) matches Some(value) ==> value == number
        },
        !(paste.field(name) matches Some(FieldView::Integer(_))) ==> paste.signed(name) is None
            && paste.unsigned(name) is None,
{
}

/// What is no object is handed on as it is, and an object stays one with each field in its place.
pub proof fn law_handed_on(paste: PasteView, server: Seq<char>, paste_id: Option<i64>)
    ensures
        paste is Other ==> paste.normalized(server, paste_id) == paste,
        paste matches PasteView::Object(fields) ==> {
            &&& paste.normalized(server, paste_id) matches PasteView::Object(after)
            &&& after.len() >= fields.len()
            &&& forall|i: int|
                0 <= i < fields.len() ==> (#[trigger] after[i]).0 == fields[i].0
        },
{
    if let PasteView::Object(fields) = paste {
        let named = with_field(fields, FIELD_APP_INSTANCE_ID@, FieldView::Text(server));
        lemma_place(fields, FIELD_APP_INSTANCE_ID@);
        lemma_place(named, FIELD_ID@);
    }
}

} // verus!
