//! JSON at the edges of the protocol: string literals, and the members of a JSON object
//! read from a client frame. The parsing and escaping are serde_json's; the frames built
//! from their results are this library's.
use vstd::prelude::*;

use crate::text::{decimal, digit_char, push_char};

verus! {

/// A key and the compact JSON text of its value.
pub type JsonMember = (String, String);

/// The lower-case hexadecimal digit for `d < 16`.
pub open spec fn hex_digit(d: int) -> char {
    if d < 10 {
        digit_char(d as nat)
    } else if d == 10 {
        'a'
    } else if d == 11 {
        'b'
    } else if d == 12 {
        'c'
    } else if d == 13 {
        'd'
    } else if d == 14 {
        'e'
    } else {
        'f'
    }
}

/// Two hexadecimal digits of a code point below U+0100.
pub open spec fn hex_pair(n: int) -> Seq<char> {
    seq![hex_digit(n / 16), hex_digit(n % 16)]
}

/// How one character appears inside a JSON string literal: `"` and `\` and the characters
/// below U+0020 escaped (by name where JSON has one, else as `\u00XX`), all others verbatim.
pub open spec fn escaped_char(c: char) -> Seq<char> {
    if c == '"' {
        seq!['\\', '"']
    } else if c == '\\' {
        seq!['\\', '\\']
    } else if c == '\u{8}' {
        seq!['\\', 'b']
    } else if c == '\t' {
        seq!['\\', 't']
    } else if c == '\n' {
        seq!['\\', 'n']
    } else if c == '\u{c}' {
        seq!['\\', 'f']
    } else if c == '\r' {
        seq!['\\', 'r']
    } else if !(c >= ' ') {
        seq!['\\', 'u', '0', '0'] + hex_pair(c as int)
    } else {
        seq![c]
    }
}

/// The characters of `s`, each as it appears inside a JSON string literal.
pub open spec fn escaped(s: Seq<char>) -> Seq<char>
    decreases s.len(),
{
    if s.len() == 0 {
        seq![]
    } else {
        escaped(s.drop_last()) + escaped_char(s.last())
    }
}

/// The JSON string literal of `s`, as serde_json writes it.
pub open spec fn json_quoted(s: Seq<char>) -> Seq<char> {
    seq!['"'] + escaped(s) + seq!['"']
}

/// Text that a JSON string literal holds verbatim: no quote, no backslash, no control character.
pub open spec fn plain_text(s: Seq<char>) -> bool {
    forall|i: int| 0 <= i < s.len() ==> #[trigger] s[i] != '"' && s[i] != '\\' && s[i] >= ' '
}

/// A decimal numeral is plain text.
pub proof fn lemma_decimal_plain(n: nat)
    ensures
        plain_text(decimal(n)),
    decreases n,
{
    if n >= 10 {
        lemma_decimal_plain(n / 10);
        let d = decimal(n / 10);
        assert forall|i: int| 0 <= i < decimal(n).len() implies #[trigger] decimal(n)[i] != '"'
            && decimal(n)[i] != '\\' && decimal(n)[i] >= ' ' by {
            if i < d.len() {
                assert(decimal(n)[i] == d[i]);
            }
        }
    }
}

/// Plain text is quoted as it stands.
pub proof fn lemma_plain_quoted(s: Seq<char>)
    requires
        plain_text(s),
    ensures
        escaped(s) == s,
        json_quoted(s) == seq!['"'] + s + seq!['"'],
    decreases s.len(),
{
    if s.len() > 0 {
        let init = s.drop_last();
        assert(plain_text(init)) by {
            assert forall|i: int| 0 <= i < init.len() implies #[trigger] init[i] != '"' && init[i] != '\\'
                && init[i] >= ' ' by {
                assert(init[i] == s[i]);
            }
        }
        lemma_plain_quoted(init);
        assert(s[s.len() - 1] == s.last());
        assert(init.push(s.last()) == s);
    }
}

/// The members of the JSON object that `s` holds, each value as compact JSON text, in the
/// order serde_json's map yields them; `None` if `s` is not JSON or not an object.
pub uninterp spec fn json_object_members(s: Seq<char>) -> Option<Seq<(Seq<char>, Seq<char>)>>;

/// The string that the JSON text `s` holds; `None` if `s` is not a JSON string.
pub uninterp spec fn json_string_value(s: Seq<char>) -> Option<Seq<char>>;

/// The view of a list of members.
pub open spec fn members_view(m: Seq<JsonMember>) -> Seq<(Seq<char>, Seq<char>)> {
    m.map_values(|e: JsonMember| (e.0@, e.1@))
}

/// Relies on `serde_json::to_string` for a `str`, which cannot fail: the JSON string literal,
/// escaped as `format_escaped_str` does.
#[verifier::external_body]
pub(crate) fn quote(s: &str) -> (r: String)
    ensures
        r@ == json_quoted(s@),
{
    match serde_json::to_string(s) {
        Ok(t) => t,
        Err(_) => String::new(),
    }
}

/// Relies on `serde_json::from_str` into a `serde_json::Value`, keeping an object's members
/// with each value written back by its `Display` (compact JSON).
#[verifier::external_body]
pub(crate) fn parse_object(text: &str) -> (r: Option<Vec<JsonMember>>)
    ensures
        r matches Some(m) ==> json_object_members(text@) == Some(members_view(m@)),
        r is None ==> json_object_members(text@) is None,
{
    match serde_json::from_str::<serde_json::Value>(text) {
        Ok(serde_json::Value::Object(map)) => Some(
            map.into_iter().map(|(k, v)| (k, v.to_string())).collect(),
        ),
        Ok(_) => None,
        Err(_) => None,
    }
}

/// Relies on `serde_json::from_str` into a `String`: the string a JSON string literal holds.
#[verifier::external_body]
pub(crate) fn parse_string(text: &str) -> (r: Option<String>)
    ensures
        r matches Some(s) ==> json_string_value(text@) == Some(s@),
        r is None ==> json_string_value(text@) is None,
{
    serde_json::from_str::<String>(text).ok()
}

/// The JSON text of one member: `"key":value`.
pub open spec fn member_text(e: (Seq<char>, Seq<char>)) -> Seq<char> {
    json_quoted(e.0) + seq![':'] + e.1
}

/// The members joined by commas.
pub open spec fn members_text(m: Seq<(Seq<char>, Seq<char>)>) -> Seq<char>
    decreases m.len(),
{
    if m.len() == 0 {
        seq![]
    } else if m.len() == 1 {
        member_text(m[0])
    } else {
        members_text(m.drop_last()) + seq![','] + member_text(m.last())
    }
}

/// The compact JSON text of an object with these members.
pub open spec fn object_text(m: Seq<(Seq<char>, Seq<char>)>) -> Seq<char> {
    seq!['{'] + members_text(m) + seq!['}']
}

/// The value of the first member named `key`.
pub open spec fn member_value(m: Seq<(Seq<char>, Seq<char>)>, key: Seq<char>) -> Option<Seq<char>>
    decreases m.len(),
{
    if m.len() == 0 {
        None
    } else if m[0].0 == key {
        Some(m[0].1)
    } else {
        member_value(m.drop_first(), key)
    }
}

/// Appends the compact JSON text of an object with these members.
pub fn push_object(out: &mut String, members: &Vec<JsonMember>)
    ensures
        final(out)@ == old(out)@ + object_text(members_view(members@)),
{
    let ghost m = members_view(members@);
    push_char(out, '{');
    let ghost start = out@;
    let mut i: usize = 0;
    while i < members.len()
        invariant
            i <= members.len(),
            m == members_view(members@),
            out@ == start + members_text(m.take(i as int)),
        decreases members.len() - i,
    {
        if i > 0 {
            push_char(out, ',');
        }
        let q = quote(members[i].0.as_str());
        out.append(q.as_str());
        push_char(out, ':');
        out.append(members[i].1.as_str());
        proof {
            let t = m.take(i + 1);
            assert(t.drop_last() == m.take(i as int));
            assert(t.last() == (members@[i as int].0@, members@[i as int].1@));
            if i == 0 {
                assert(m.take(0) =~= seq![]);
            }
        }
        i = i + 1;
    }
    assert(m.take(members.len() as int) == m);
    push_char(out, '}');
}

/// Finds the value of the first member named `key`.
pub fn find_member(members: &Vec<JsonMember>, key: &str) -> (r: Option<String>)
    ensures
        r matches Some(v) ==> member_value(members_view(members@), key@) == Some(v@),
        r is None ==> member_value(members_view(members@), key@) is None,
{
    let ghost m = members_view(members@);
    assert(m.skip(0) == m);
    let mut i: usize = 0;
    while i < members.len()
        invariant
            i <= members.len(),
            m == members_view(members@),
            member_value(m, key@) == member_value(m.skip(i as int), key@),
        decreases members.len() - i,
    {
        let k: &str = members[i].0.as_str();
        if str_eq(k, key) {
            return Some(members[i].1.clone());
        }
        assert(m.skip(i as int).drop_first() == m.skip(i + 1));
        i = i + 1;
    }
    None
}

/// Character-wise equality of two strings.
pub fn str_eq(a: &str, b: &str) -> (r: bool)
    ensures
        r == (a@ == b@),
{
    let x = crate::text::chars_of(a);
    let y = crate::text::chars_of(b);
    if x.len() != y.len() {
        return false;
    }
    let mut i: usize = 0;
    while i < x.len()
        invariant
            i <= x.len(),
            x.len() == y.len(),
            x@ == a@,
            y@ == b@,
            forall|k: int| 0 <= k < i ==> x@[k] == y@[k],
        decreases x.len() - i,
    {
        if x[i] != y[i] {
            return false;
        }
        i = i + 1;
    }
    assert(x@ =~= y@);
    true
}

} // verus!
