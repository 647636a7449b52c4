//! Texts and lists of optional texts: joining, comparing and lower-casing.

use vstd::prelude::*;
use vstd::string::*;

verus! {

/// The characters of a value, or `None` for an attribute that is not applied.
pub open spec fn text(value: Option<&str>) -> Option<Seq<char>> {
    match value {
        Some(s) => Some(s@),
        None => None,
    }
}

/// The characters of each value of a list.
pub open spec fn texts(values: Seq<Option<&str>>) -> Seq<Option<Seq<char>>> {
    Seq::new(values.len(), |i: int| text(values[i]))
}

/// The values of a list that are present, in order.
pub open spec fn present(values: Seq<Option<Seq<char>>>) -> Seq<Seq<char>>
    decreases values.len(),
{
    if values.len() == 0 {
        Seq::empty()
    } else {
        match values.last() {
            Some(value) => present(values.drop_last()).push(value),
            None => present(values.drop_last()),
        }
    }
}

/// The parts written one after the other with `separator` between
/// neighbours.
pub open spec fn joined(parts: Seq<Seq<char>>, separator: Seq<char>) -> Seq<char>
    decreases parts.len(),
{
    if parts.len() == 0 {
        Seq::empty()
    } else if parts.len() == 1 {
        parts[0]
    } else {
        joined(parts.drop_last(), separator) + separator + parts.last()
    }
}

/// The lower-case form of an ASCII capital letter; any other character
/// unchanged.
pub open spec fn lower_char(c: char) -> char {
    if 'A' <= c && c <= 'Z' {
        ((c as u8) + 32) as char
    } else {
        c
    }
}

/// The text with each ASCII capital letter replaced by its lower-case form.
pub open spec fn lowercase(text: Seq<char>) -> Seq<char> {
    Seq::new(text.len(), |i: int| lower_char(text[i]))
}

/// `String::make_ascii_lowercase` of std: the letters `A` to `Z` become `a`
/// to `z`, and every other character stays as it is.
#[verifier::external_body]
pub(crate) fn ascii_lowercase(text: String) -> (lowered: String)
    ensures
        lowered@ == lowercase(text@),
{
    let mut text = text;
    text.make_ascii_lowercase();
    text
}

/// Appends to `name` the values that are present, with `separator` between
/// neighbours.
pub fn append_joined(name: &mut String, values: &Vec<Option<&str>>, separator: &str)
    ensures
        final(name)@ == old(name)@ + joined(present(texts(values@)), separator@),
{
    proof {
        assert(texts(values@).take(0) =~= Seq::empty());
        assert(name@ =~= old(name)@ + joined(present(texts(values@).take(0)), separator@));
    }
    let mut first = true;
    let mut i: usize = 0;
    while i < values.len()
        invariant
            i <= values.len(),
            first == (present(texts(values@).take(i as int)).len() == 0),
            name@ == old(name)@ + joined(present(texts(values@).take(i as int)), separator@),
        decreases values.len() - i,
    {
        let ghost before = texts(values@).take(i as int);
        let ghost after = texts(values@).take(i + 1);
        proof {
            assert(after.drop_last() =~= before);
            assert(after.last() == text(values@[i as int]));
        }
        match values[i] {
            Some(value) => {
                if !first {
                    name.append(separator);
                }
                name.append(value);
                first = false;
                proof {
                    assert(present(after) == present(before).push(value@));
                    assert(present(after).drop_last() =~= present(before));
                    if present(before).len() == 0 {
                        assert(joined(present(after), separator@) == value@);
                        assert(joined(present(before), separator@) =~= Seq::empty());
                        assert(name@ =~= old(name)@ + joined(present(after), separator@));
                    } else {
                        assert(joined(present(after), separator@) == joined(
                            present(before),
                            separator@,
                        ) + separator@ + value@);
                        assert(name@ =~= old(name)@ + joined(present(after), separator@));
                    }
                }
            },
            None => {
                proof {
                    assert(present(after) == present(before));
                }
            },
        }
        i += 1;
    }
    proof {
        assert(texts(values@).take(values.len() as int) =~= texts(values@));
    }
}

/// Whether two texts hold the same characters.
pub fn same_text(a: &str, b: &str) -> (same: bool)
    ensures
        same == (a@ == b@),
{
    let left = a.to_owned();
    let right = b.to_owned();
    left == right
}

} // verus!
