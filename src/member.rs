//! Projection of the membership roster and of the remote roles into the
//! entities that a pass compares.

use vstd::prelude::*;

use crate::entity::{DesiredEntity, ObservedEntity};

verus! {

/// A member of a system, as the membership service describes it.
pub struct Member {
    pub name: String,
    pub display_name: Option<String>,
    /// The member's color as hex text, such as "#EEEEEE".
    pub color: Option<String>,
}

/// The color a role gets when the member has none, or none that parses.
pub const DEFAULT_ROLE_COLOR: u32 = 0x99AAB5;

/// The name a member goes by: its display name where set, else its name.
pub open spec fn member_name_of(m: Member) -> Seq<char> {
    match m.display_name {
        Some(d) => d@,
        None => m.name@,
    }
}

/// The name a member goes by.
pub fn member_name(m: &Member) -> (r: String)
    ensures
        r@ == member_name_of(*m),
{
    match &m.display_name {
        Some(d) => d.clone(),
        None => m.name.clone(),
    }
}

/// `s` up to its first " (", which starts an annotation such as pronouns.
pub open spec fn base_name(s: Seq<char>) -> Seq<char>
    decreases s.len(),
{
    if s.len() < 2 {
        s
    } else if s[0] == ' ' && s[1] == '(' {
        seq![]
    } else {
        seq![s[0]] + base_name(s.drop_first())
    }
}

/// The suffix that marks the roles this library manages.
pub open spec fn role_marker() -> Seq<char> {
    " (Alter)"@
}

/// The role name for a member name: the name without its annotation, then the marker.
pub open spec fn role_name_of(name: Seq<char>) -> Seq<char> {
    base_name(name) + role_marker()
}

/// The role name for a member name.
pub fn role_name(name: &String) -> (r: String)
    ensures
        r@ == role_name_of(name@),
{
    let s = name.as_str();
    let n = s.unicode_len();
    let mut i: usize = 0;
    let mut found = false;
    assert(s@.subrange(0, n as int) =~= s@);
    assert(s@.subrange(0, 0) + s@ =~= s@);
    while !found && n >= 2 && i < n - 1
        invariant
            n == s@.len(),
            s@ == name@,
            i <= n,
            !found ==> base_name(s@) == s@.subrange(0, i as int) + base_name(s@.subrange(i as int, n as int)),
            found ==> base_name(s@) == s@.subrange(0, i as int),
        decreases n - i + if found { 0int } else { 1int },
    {
        let ghost sub = s@.subrange(i as int, n as int);
        if s.get_char(i) == ' ' && s.get_char(i + 1) == '(' {
            assert(sub[0] == ' ' && sub[1] == '(');
            assert(base_name(sub) =~= seq![]);
            assert(s@.subrange(0, i as int) + seq![] =~= s@.subrange(0, i as int));
            found = true;
        } else {
            assert(sub.drop_first() =~= s@.subrange(i + 1, n as int));
            assert(s@.subrange(0, i + 1) =~= s@.subrange(0, i as int) + seq![sub[0]]);
            i = i + 1;
        }
    }
    let end = if found { i } else { n };
    proof {
        if !found {
            let sub = s@.subrange(i as int, n as int);
            assert(sub.len() < 2);
            assert(base_name(sub) == sub);
            assert(s@.subrange(0, i as int) + sub =~= s@.subrange(0, n as int));
        }
    }
    let base = s.substring_char(0, end);
    let mut out = base.to_owned();
    proof {
        reveal_strlit(" (Alter)");
    }
    out.append(" (Alter)");
    out
}

/// The name ends with the role marker.
pub open spec fn has_marker(name: Seq<char>) -> bool {
    name.len() >= role_marker().len() && name.subrange(
        name.len() - role_marker().len(),
        name.len() as int,
    ) == role_marker()
}

/// Tells whether a role name carries the role marker.
pub fn is_member_role(name: &String) -> (r: bool)
    ensures
        r == has_marker(name@),
{
    proof {
        reveal_strlit(" (Alter)");
    }
    let marker = " (Alter)";
    let s = name.as_str();
    let n = s.unicode_len();
    let m = marker.unicode_len();
    if n < m {
        return false;
    }
    let start = n - m;
    for k in 0..m
        invariant
            n == s@.len(),
            s@ == name@,
            m == marker@.len(),
            marker@ == role_marker(),
            start == n - m,
            forall|j: int| 0 <= j < k ==> #[trigger] s@[start + j] == marker@[j],
    {
        if s.get_char(start + k) != marker.get_char(k) {
            assert(name@.subrange(start as int, n as int)[k as int] != role_marker()[k as int]);
            return false;
        }
    }
    assert forall|j: int| 0 <= j < m implies #[trigger] name@.subrange(start as int, n as int)[j]
        == role_marker()[j] by {
        assert(s@[start + j] == marker@[j]);
    }
    assert(name@.subrange(start as int, n as int) =~= role_marker());
    true
}

/// The value of a hex digit, if `c` is one.
pub open spec fn hex_digit(c: char) -> Option<nat> {
    if '0' <= c && c <= '9' {
        Some((c as nat - '0' as nat) as nat)
    } else if 'a' <= c && c <= 'f' {
        Some((c as nat - 'a' as nat + 10) as nat)
    } else if 'A' <= c && c <= 'F' {
        Some((c as nat - 'A' as nat + 10) as nat)
    } else {
        None
    }
}

/// Every character of `s` is a hex digit.
pub open spec fn all_hex(s: Seq<char>) -> bool {
    forall|i: int| 0 <= i < s.len() ==> #[trigger] hex_digit(s[i]) is Some
}

/// The number that the hex digits `s` write, most significant first.
pub open spec fn hex_value(s: Seq<char>) -> nat
    decreases s.len(),
{
    if s.len() == 0 {
        0
    } else {
        hex_value(s.drop_last()) * 16 + hex_digit(s.last())->Some_0
    }
}

/// An optional '+' and then one or more hex digits whose value fits in 32 bits.
pub open spec fn parsed_hex(s: Seq<char>) -> Option<u32> {
    let digits = if s.len() > 0 && s[0] == '+' {
        s.drop_first()
    } else {
        s
    };
    if digits.len() > 0 && all_hex(digits) && hex_value(digits) <= u32::MAX {
        Some(hex_value(digits) as u32)
    } else {
        None
    }
}

/// `s` without its leading '#' characters.
pub open spec fn without_hashes(s: Seq<char>) -> Seq<char>
    decreases s.len(),
{
    if s.len() > 0 && s[0] == '#' {
        without_hashes(s.drop_first())
    } else {
        s
    }
}

/// The color that a member's hex text gives its role.
pub open spec fn color_of(hex: Option<Seq<char>>) -> u32 {
    match hex {
        Some(h) => match parsed_hex(without_hashes(h)) {
            Some(v) => v,
            None => DEFAULT_ROLE_COLOR,
        },
        None => DEFAULT_ROLE_COLOR,
    }
}

/// Relies on `u32::from_str_radix` with radix 16: it accepts an optional '+'
/// followed by one or more digits 0-9, a-f, A-F whose value fits in a `u32`,
/// and fails on anything else (empty text, other characters, overflow).
#[verifier::external_body]
fn parse_hex_u32(s: &str) -> (r: Option<u32>)
    ensures
        r == parsed_hex(s@),
{
    u32::from_str_radix(s, 16).ok()
}

/// The role color for a member's hex text: its value, after any leading '#',
/// or the default color where there is none or it does not parse.
pub fn hex_to_color(hex: Option<String>) -> (r: u32)
    ensures
        r == color_of(
            match hex {
                Some(h) => Some(h@),
                None => None,
            },
        ),
{
    match hex {
        None => DEFAULT_ROLE_COLOR,
        Some(h) => {
            let s = h.as_str();
            let n = s.unicode_len();
            let mut i: usize = 0;
            assert(s@.subrange(0, n as int) =~= s@);
            while i < n && s.get_char(i) == '#'
                invariant
                    n == s@.len(),
                    s@ == h@,
                    i <= n,
                    without_hashes(s@) == without_hashes(s@.subrange(i as int, n as int)),
                decreases n - i,
            {
                assert(s@.subrange(i as int, n as int).drop_first() =~= s@.subrange(i + 1, n as int));
                i = i + 1;
            }
            let rest = s.substring_char(i, n);
            assert(without_hashes(s@.subrange(i as int, n as int)) == s@.subrange(i as int, n as int));
            match parse_hex_u32(rest) {
                Some(v) => v,
                None => DEFAULT_ROLE_COLOR,
            }
        },
    }
}

/// The channels that the active members ask for: one per member, named as
/// the member goes by, in roster order.
pub fn desired_channels(members: &Vec<Member>) -> (r: Vec<DesiredEntity>)
    ensures
        r@.len() == members@.len(),
        forall|i: int|
            0 <= i < r@.len() ==> (#[trigger] r@[i]).name@ == member_name_of(members@[i])
                && r@[i].color is None && r@[i].position is None,
{
    let mut out: Vec<DesiredEntity> = Vec::new();
    let n = members.len();
    for i in 0..n
        invariant
            n == members@.len(),
            out@.len() == i,
            forall|j: int|
                0 <= j < i ==> (#[trigger] out@[j]).name@ == member_name_of(members@[j])
                    && out@[j].color is None && out@[j].position is None,
    {
        out.push(DesiredEntity { name: member_name(&members[i]), color: None, position: None });
    }
    out
}

/// The roles that the members ask for: one per member, with the role name of
/// the name it goes by and the color of its hex text, in roster order.
pub fn desired_roles(members: &Vec<Member>) -> (r: Vec<DesiredEntity>)
    ensures
        r@.len() == members@.len(),
        forall|i: int|
            0 <= i < r@.len() ==> (#[trigger] r@[i]).name@ == role_name_of(member_name_of(members@[i]))
                && r@[i].color == Some(
                color_of(
                    match members@[i].color {
                        Some(h) => Some(h@),
                        None => None,
                    },
                ),
            ) && r@[i].position is None,
{
    let mut out: Vec<DesiredEntity> = Vec::new();
    let n = members.len();
    for i in 0..n
        invariant
            n == members@.len(),
            out@.len() == i,
            forall|j: int|
                0 <= j < i ==> (#[trigger] out@[j]).name@ == role_name_of(member_name_of(members@[j]))
                    && out@[j].color == Some(
                    color_of(
                        match members@[j].color {
                            Some(h) => Some(h@),
                            None => None,
                        },
                    ),
                ) && out@[j].position is None,
    {
        let m = &members[i];
        let name = role_name(&member_name(m));
        let color = hex_to_color(m.color.clone());
        out.push(DesiredEntity { name, color: Some(color), position: None });
    }
    out
}

/// The roles among the first `n` of `s` that carry the marker, in order.
pub open spec fn marked(s: Seq<ObservedEntity>, n: int) -> Seq<ObservedEntity>
    decreases n,
{
    if n <= 0 {
        seq![]
    } else if has_marker(s[n - 1].name@) {
        marked(s, n - 1).push(s[n - 1])
    } else {
        marked(s, n - 1)
    }
}

/// The roles this library manages: those whose name carries the marker.
pub fn member_roles(roles: &Vec<ObservedEntity>) -> (r: Vec<ObservedEntity>)
    ensures
        r@ == marked(roles@, roles@.len() as int),
{
    let mut out: Vec<ObservedEntity> = Vec::new();
    let n = roles.len();
    for i in 0..n
        invariant
            n == roles@.len(),
            out@ == marked(roles@, i as int),
    {
        let e = &roles[i];
        if is_member_role(&e.name) {
            out.push(ObservedEntity { id: e.id, name: e.name.clone(), color: e.color, position: e.position });
        }
    }
    out
}

} // verus!
