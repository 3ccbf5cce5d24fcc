//! Checks on what an administrator enters when setting up a tenant.

use vstd::prelude::*;

use crate::pass::RemoteChannel;

verus! {

/// What `str::trim` makes of a text.
pub uninterp spec fn trimmed_of(s: Seq<char>) -> Seq<char>;

/// What `str::to_lowercase` makes of a text.
pub uninterp spec fn lower_of(s: Seq<char>) -> Seq<char>;

/// Relies on `str::trim`: leading and trailing whitespace removed; the result
/// depends on the characters alone.
#[verifier::external_body]
fn trim_text(s: &str) -> (r: String)
    ensures
        r@ == trimmed_of(s@),
{
    s.trim().to_string()
}

/// Relies on `str::to_lowercase`: the lowercase form of the text; the result
/// depends on the characters alone.
#[verifier::external_body]
fn lowercase(s: &str) -> (r: String)
    ensures
        r@ == lower_of(s@),
{
    s.to_lowercase()
}

/// `s` without its '-' characters.
pub open spec fn without_dashes(s: Seq<char>) -> Seq<char>
    decreases s.len(),
{
    if s.len() == 0 {
        s
    } else if s.last() == '-' {
        without_dashes(s.drop_last())
    } else {
        without_dashes(s.drop_last()).push(s.last())
    }
}

/// Removes the '-' characters of a text.
pub fn remove_dashes(s: &str) -> (r: String)
    ensures
        r@ == without_dashes(s@),
{
    let n = s.unicode_len();
    let mut out = String::new();
    for i in 0..n
        invariant
            n == s@.len(),
            out@ == without_dashes(s@.subrange(0, i as int)),
    {
        let c = s.get_char(i);
        assert(s@.subrange(0, i + 1).drop_last() =~= s@.subrange(0, i as int));
        if c != '-' {
            let piece = s.substring_char(i, i + 1);
            out.append(piece);
            assert(piece@ =~= seq![c]);
        }
    }
    assert(s@.subrange(0, n as int) =~= s@);
    out
}

/// Every character of `s` is an ASCII letter.
pub open spec fn all_ascii_letters(s: Seq<char>) -> bool {
    forall|i: int| 0 <= i < s.len() ==> {
        let c = #[trigger] s[i];
        ('a' <= c && c <= 'z') || ('A' <= c && c <= 'Z')
    }
}

/// Accepts a sanitised system id made of ASCII letters only, and hands back
/// any other as the error.
pub fn validate_system_id(s: String) -> (r: Result<String, String>)
    ensures
        all_ascii_letters(s@) ==> r == Ok::<String, String>(s),
        !all_ascii_letters(s@) ==> r == Err::<String, String>(s),
{
    let t = s.as_str();
    let n = t.unicode_len();
    for i in 0..n
        invariant
            n == t@.len(),
            t@ == s@,
            forall|j: int| 0 <= j < i ==> {
                let c = #[trigger] s@[j];
                ('a' <= c && c <= 'z') || ('A' <= c && c <= 'Z')
            },
    {
        let c = t.get_char(i);
        if !(('a' <= c && c <= 'z') || ('A' <= c && c <= 'Z')) {
            return Err(s);
        }
    }
    Ok(s)
}

/// The system id of a raw entry: trimmed, without '-', in lowercase.
pub open spec fn sanitized(raw: Seq<char>) -> Seq<char> {
    lower_of(without_dashes(trimmed_of(raw)))
}

/// Sanitises a system id as entered (trims it, drops its '-', lowercases it)
/// and accepts it if only ASCII letters are left; else hands back the
/// sanitised text as the error.
pub fn sanitize_system_id(raw: &str) -> (r: Result<String, String>)
    ensures
        match r {
            Ok(s) => s@ == sanitized(raw@) && all_ascii_letters(s@),
            Err(s) => s@ == sanitized(raw@) && !all_ascii_letters(s@),
        },
{
    let trimmed = trim_text(raw);
    let plain = remove_dashes(trimmed.as_str());
    let lower = lowercase(plain.as_str());
    validate_system_id(lower)
}

/// A category among the first `n` of `cs` has the name `wanted`, ignoring case.
pub open spec fn category_named_in(cs: Seq<RemoteChannel>, wanted: Seq<char>, n: int) -> bool {
    exists|i: int| 0 <= i < n && #[trigger] cs[i].is_category && lower_of(cs[i].name@) == lower_of(wanted)
}

/// The first category of `channels` whose name is `wanted`, ignoring case.
pub fn find_category(channels: &Vec<RemoteChannel>, wanted: &str) -> (r: Option<u64>)
    ensures
        match r {
            Some(id) => exists|i: int|
                0 <= i < channels@.len() && #[trigger] channels@[i].is_category && lower_of(channels@[i].name@)
                    == lower_of(wanted@) && channels@[i].id == id && !category_named_in(channels@, wanted@, i),
            None => !category_named_in(channels@, wanted@, channels@.len() as int),
        },
{
    let target = lowercase(wanted);
    let n = channels.len();
    for i in 0..n
        invariant
            n == channels@.len(),
            target@ == lower_of(wanted@),
            !category_named_in(channels@, wanted@, i as int),
    {
        let c = &channels[i];
        if c.is_category {
            let name = lowercase(c.name.as_str());
            if name.eq(&target) {
                return Some(c.id);
            }
        }
        assert(!category_named_in(channels@, wanted@, i + 1)) by {
            if category_named_in(channels@, wanted@, i + 1) {
                let j = choose|j: int| 0 <= j < i + 1 && #[trigger] channels@[j].is_category && lower_of(channels@[j].name@) == lower_of(wanted@);
                assert(j == i);
            }
        }
    }
    None
}

} // verus!
