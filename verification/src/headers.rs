//! The headers of a request as the relay reads them.
use vstd::prelude::*;

use crate::text;

verus! {

/// Whether the character may stand in a token as HTTP has them: the name of a header or of a
/// method.
pub open spec fn is_token_char(c: char) -> bool {
    text::is_alphanumeric(c) || "!#$%&'*+-.^_`|~"@.contains(c)
}

/// A header of a request. A value that is not visible ASCII has no text.
#[derive(Debug)]
pub struct Header {
    pub name: String,
    pub text: Option<String>,
}

/// A header with its texts by their characters.
pub struct HeaderView {
    pub name: Seq<char>,
    pub text: Option<Seq<char>>,
}

impl View for Header {
    type V = HeaderView;

    open spec fn view(&self) -> HeaderView {
        HeaderView {
            name: self.name@,
            text: match self.text {
                Some(text) => Some(text@),
                None => None,
            },
        }
    }
}

/// Headers with their texts by their characters.
pub open spec fn views(headers: Seq<Header>) -> Seq<HeaderView> {
    headers.map_values(|header: Header| header@)
}

/// Whether two header names are the same: case does not count.
pub open spec fn same_name(a: Seq<char>, b: Seq<char>) -> bool {
    text::lower_text(a) == text::lower_text(b)
}

/// The first header of that name.
pub open spec fn first_of(headers: Seq<HeaderView>, name: Seq<char>) -> Option<HeaderView>
    decreases headers.len(),
{
    if headers.len() == 0 {
        None
    } else if same_name(headers[0].name, name) {
        Some(headers[0])
    } else {
        first_of(headers.drop_first(), name)
    }
}

/// The text of the first header of that name, if it has text.
pub open spec fn text_of(headers: Seq<HeaderView>, name: Seq<char>) -> Option<Seq<char>> {
    match first_of(headers, name) {
        Some(header) => header.text,
        None => None,
    }
}

/// The first header of that name.
pub fn first<'a>(headers: &'a [Header], name: &str) -> (found: Option<&'a Header>)
    ensures
        match found {
            Some(header) => first_of(views(headers@), name@) == Some(header@),
            None => first_of(views(headers@), name@) is None,
        },
{
    let mut i: usize = 0;
    assert(views(headers@).skip(0) =~= views(headers@));
    while i < headers.len()
        invariant
            i <= headers@.len(),
            first_of(views(headers@).skip(i as int), name@) == first_of(views(headers@), name@),
        decreases headers@.len() - i,
    {
        if text::same_ignoring_case(headers[i].name.as_str(), name) {
            return Some(&headers[i]);
        }
        assert(views(headers@).skip(i as int).drop_first() =~= views(headers@).skip(i + 1));
        i += 1;
    }
    None
}

/// The text of the first header of that name, if it has text.
pub fn value<'a>(headers: &'a [Header], name: &str) -> (found: Option<&'a str>)
    ensures
        match found {
            Some(text) => text_of(views(headers@), name@) == Some(text@),
            None => text_of(views(headers@), name@) is None,
        },
{
    match first(headers, name) {
        Some(header) => match &header.text {
            Some(text) => Some(text.as_str()),
            None => None,
        },
        None => None,
    }
}

/// Two names are the same where they are as long and differ, at most, in the case of A to Z.
pub proof fn law_same_name(a: Seq<char>, b: Seq<char>)
    ensures
        same_name(a, b) <==> a.len() == b.len() && forall|i: int|
            0 <= i < a.len() ==> {
                ||| #[trigger] a[i] == b[i]
                ||| 'A' <= a[i] <= 'Z' && b[i] as u32 == a[i] as u32 + 32
                ||| 'A' <= b[i] <= 'Z' && a[i] as u32 == b[i] as u32 + 32
            },
{
    let (low_a, low_b) = (text::lower_text(a), text::lower_text(b));
    assert(low_a.len() == a.len() && low_b.len() == b.len());
    if same_name(a, b) {
        assert forall|i: int| 0 <= i < a.len() implies {
            ||| #[trigger] a[i] == b[i]
            ||| 'A' <= a[i] <= 'Z' && b[i] as u32 == a[i] as u32 + 32
            ||| 'A' <= b[i] <= 'Z' && a[i] as u32 == b[i] as u32 + 32
        } by {
            assert(low_a[i] == low_b[i]);
            assert(low_a[i] == text::lower(a[i]));
            assert(low_b[i] == text::lower(b[i]));
        }
    }
    if a.len() == b.len() && forall|i: int|
        0 <= i < a.len() ==> {
            ||| #[trigger] a[i] == b[i]
            ||| 'A' <= a[i] <= 'Z' && b[i] as u32 == a[i] as u32 + 32
            ||| 'A' <= b[i] <= 'Z' && a[i] as u32 == b[i] as u32 + 32
        } {
        assert forall|i: int| 0 <= i < a.len() implies low_a[i] == low_b[i] by {
            assert(a[i] == a[i]);
            assert(low_a[i] == text::lower(a[i]));
            assert(low_b[i] == text::lower(b[i]));
        }
        assert(low_a =~= low_b);
    }
}

/// Of several headers with one name the first counts; a name that is not there has none.
pub proof fn law_first_of(headers: Seq<HeaderView>, name: Seq<char>, place: int)
    requires
        0 <= place <= headers.len(),
        forall|i: int| 0 <= i < place ==> !same_name((#[trigger] headers[i]).name, name),
        place < headers.len() ==> same_name(headers[place].name, name),
    ensures
        first_of(headers, name) == (if place < headers.len() {
            Some(headers[place])
        } else {
            None
        }),
        text_of(headers, name) == (if place < headers.len() {
            headers[place].text
        } else {
            None
        }),
    decreases headers.len(),
{
    if headers.len() > 0 && place > 0 {
        assert(!same_name(headers[0].name, name));
        assert forall|i: int| 0 <= i < place - 1 implies !same_name(
            (#[trigger] headers.drop_first()[i]).name,
            name,
        ) by {
            assert(!same_name(headers[i + 1].name, name));
        }
        law_first_of(headers.drop_first(), name, place - 1);
    }
}

/// Headers by their views stand in their places, each with its name and its text.
pub proof fn law_views(headers: Seq<Header>, place: int)
    requires
        0 <= place < headers.len(),
    ensures
        views(headers).len() == headers.len(),
        views(headers)[place].name == headers[place].name@,
        views(headers)[place].text is Some <==> headers[place].text is Some,
        headers[place].text matches Some(text) ==> views(headers)[place].text == Some(text@),
{
}

} // verus!
