//! Pieces of JSON text that the envelopes are made of: whitespace between
//! tokens, and the escapes of string bodies.
use vstd::prelude::*;
use crate::decimal::{digit_char, digit_text};

verus! {

/// JSON whitespace.
pub open spec fn is_ws(c: char) -> bool {
    c == ' ' || c == '\t' || c == '\n' || c == '\r'
}

/// First position at or after `i` that holds no whitespace, or the length.
pub open spec fn skip_ws(s: Seq<char>, i: nat) -> nat
    decreases s.len() - i,
{
    if i < s.len() && is_ws(s[i as int]) {
        skip_ws(s, i + 1)
    } else {
        i
    }
}

/// Start of the run of whitespace that ends just before `j`.
pub open spec fn trim_end(s: Seq<char>, j: nat) -> nat
    decreases j,
{
    if 0 < j <= s.len() && is_ws(s[j - 1]) {
        trim_end(s, (j - 1) as nat)
    } else {
        j
    }
}

/// Position of the last character that is not whitespace: where an
/// envelope's closing `}` stands.
pub open spec fn last_token(s: Seq<char>) -> int {
    trim_end(s, s.len()) - 1
}

/// Lowercase hex digit of a value below sixteen.
pub open spec fn hex_char(d: nat) -> char {
    if d < 10 {
        digit_char(d)
    } else if d == 10 {
        'a'
    } else if d == 11 {
        'b'
    } else if d == 12 {
        'c'
    } else if d == 13 {
        'd'
    } else if d == 14 {
        'e'
    } else {
        'f'
    }
}

/// Value of a hex digit of either case, `-1` for any other character.
pub open spec fn hex_value(c: char) -> int {
    if '0' <= c && c <= '9' {
        c as int - '0' as int
    } else if 'a' <= c && c <= 'f' {
        c as int - 'a' as int + 10
    } else if 'A' <= c && c <= 'F' {
        c as int - 'A' as int + 10
    } else {
        -1
    }
}

/// Value of the four hex digits at `i`, `-1` if there are not four.
pub open spec fn hex4(s: Seq<char>, i: int) -> int {
    if 0 <= i && i + 4 <= s.len() && hex_value(s[i]) >= 0 && hex_value(s[i + 1]) >= 0
        && hex_value(s[i + 2]) >= 0 && hex_value(s[i + 3]) >= 0 {
        hex_value(s[i]) * 4096 + hex_value(s[i + 1]) * 256 + hex_value(s[i + 2]) * 16
            + hex_value(s[i + 3])
    } else {
        -1
    }
}

/// Scalar value of a character.
pub open spec fn code_of(c: char) -> int {
    (c as u32) as int
}

/// The character whose scalar value is `v`.
pub open spec fn char_with_code(v: int) -> char {
    choose|c: char| #[trigger] code_of(c) == v
}

/// The escape sequence whose backslash stands at `i`: the character it stands
/// for and the position after it. A `\u` escape of a surrogate needs its
/// pair; `None` for anything that is not an escape of JSON.
pub open spec fn escape_at(s: Seq<char>, i: int) -> Option<(char, int)> {
    if i < 0 || i + 1 >= s.len() {
        None
    } else {
        let e = s[i + 1];
        if e == '"' || e == '\\' || e == '/' {
            Some((e, i + 2))
        } else if e == 'b' {
            Some(('\u{8}', i + 2))
        } else if e == 'f' {
            Some(('\u{c}', i + 2))
        } else if e == 'n' {
            Some(('\n', i + 2))
        } else if e == 'r' {
            Some(('\r', i + 2))
        } else if e == 't' {
            Some(('\t', i + 2))
        } else if e == 'u' {
            let v = hex4(s, i + 2);
            if v < 0 || (0xDC00 <= v && v < 0xE000) {
                None
            } else if 0xD800 <= v && v < 0xDC00 {
                let w = hex4(s, i + 8);
                if i + 8 <= s.len() && s[i + 6] == '\\' && s[i + 7] == 'u' && 0xDC00 <= w && w
                    < 0xE000 {
                    Some((char_with_code(0x10000 + (v - 0xD800) * 1024 + (w - 0xDC00)), i + 12))
                } else {
                    None
                }
            } else {
                Some((char_with_code(v), i + 6))
            }
        } else {
            None
        }
    }
}

/// The string whose body starts at `i`, just after its opening quote: the
/// characters it stands for and the position after its closing quote. `None`
/// when the body holds a bad escape or a control character, or never closes.
pub open spec fn string_at(s: Seq<char>, i: int) -> Option<(Seq<char>, int)>
    decreases s.len() - i,
{
    if i < 0 || i >= s.len() {
        None
    } else if s[i] == '"' {
        Some((Seq::empty(), i + 1))
    } else if s[i] == '\\' {
        match escape_at(s, i) {
            Some((c, j)) => if i < j && j <= s.len() {
                match string_at(s, j) {
                    Some((t, k)) => Some((seq![c] + t, k)),
                    None => None,
                }
            } else {
                None
            },
            None => None,
        }
    } else if 32 > code_of(s[i]) {
        None
    } else {
        match string_at(s, i + 1) {
            Some((t, k)) => Some((seq![s[i]] + t, k)),
            None => None,
        }
    }
}

/// How a character is written in a JSON string body: `"` and `\` escaped,
/// the control characters with a short escape where JSON has one and as
/// `\u00xx` otherwise, any other character as it is.
pub open spec fn escape_char(c: char) -> Seq<char> {
    if c == '"' {
        seq!['\\', '"']
    } else if c == '\\' {
        seq!['\\', '\\']
    } else if c == '\u{8}' {
        seq!['\\', 'b']
    } else if c == '\u{c}' {
        seq!['\\', 'f']
    } else if c == '\n' {
        seq!['\\', 'n']
    } else if c == '\r' {
        seq!['\\', 'r']
    } else if c == '\t' {
        seq!['\\', 't']
    } else if 32 > code_of(c) {
        seq!['\\', 'u', '0', '0', hex_char((code_of(c) / 16) as nat), hex_char((code_of(c) % 16) as nat)]
    } else {
        seq![c]
    }
}

/// Body of the JSON string that holds `s`.
pub open spec fn escaped(s: Seq<char>) -> Seq<char>
    decreases s.len(),
{
    if s.len() == 0 {
        Seq::empty()
    } else {
        escaped(s.drop_last()) + escape_char(s.last())
    }
}

proof fn lemma_escaped_front(s: Seq<char>)
    requires
        s.len() > 0,
    ensures
        escaped(s) == escape_char(s[0]) + escaped(s.drop_first()),
    decreases s.len(),
{
    if s.len() == 1 {
        assert(s.drop_last() =~= Seq::<char>::empty());
        assert(s.drop_first() =~= Seq::<char>::empty());
        assert(escape_char(s[0]) + Seq::<char>::empty() =~= escape_char(s[0]));
    } else {
        let d = s.drop_last();
        lemma_escaped_front(d);
        assert(d.drop_first() =~= s.drop_first().drop_last());
        assert(s.drop_first().last() == s.last());
        assert(escaped(s) =~= escape_char(s[0]) + escaped(s.drop_first()));
    }
}

proof fn lemma_hex_char(d: nat)
    requires
        d < 16,
    ensures
        hex_value(hex_char(d)) == d,
{
}

proof fn lemma_char_code(c: char)
    ensures
        char_with_code(code_of(c)) == c,
{
    let d = char_with_code(code_of(c));
    assert(code_of(d) == code_of(c));
}

/// Reading a string body at `i`, where the text of character `c` stands,
/// gives `c` and goes on after it.
proof fn lemma_read_one(s: Seq<char>, i: int, c: char)
    requires
        0 <= i,
        i + escape_char(c).len() <= s.len(),
        forall|k: int| 0 <= k < escape_char(c).len() ==> s[i + k] == #[trigger] escape_char(c)[k],
    ensures
        string_at(s, i) == match string_at(s, i + escape_char(c).len()) {
            Some((t, k)) => Some((seq![c] + t, k)),
            None => None::<(Seq<char>, int)>,
        },
{
    let ec = escape_char(c);
    assert(s[i] == ec[0]);
    if ec.len() == 2 {
        assert(s[i + 1] == ec[1]);
    }
    if 32 > code_of(c) && c != '\u{8}' && c != '\u{c}' && c != '\n' && c != '\r' && c != '\t' {
        let h = (code_of(c) / 16) as nat;
        let l = (code_of(c) % 16) as nat;
        lemma_hex_char(h);
        lemma_hex_char(l);
        assert(s[i + 1] == ec[1] && s[i + 2] == ec[2] && s[i + 3] == ec[3]);
        assert(s[i + 4] == ec[4] && s[i + 5] == ec[5]);
        assert(h * 16 + l == code_of(c));
        assert(hex4(s, i + 2) == code_of(c));
        lemma_char_code(c);
    }
}

/// The body of a string written with [`escaped`] reads back as the same
/// characters, and ends at the closing quote, whatever stands around it.
pub proof fn lemma_string_round_trip(u: Seq<char>, pre: Seq<char>, post: Seq<char>)
    ensures
        string_at(pre + escaped(u) + seq!['"'] + post, pre.len() as int) == Some(
            (u, (pre.len() + escaped(u).len() + 1) as int),
        ),
    decreases u.len(),
{
    let s = pre + escaped(u) + seq!['"'] + post;
    let i = pre.len() as int;
    if u.len() == 0 {
        assert(s[i] == '"');
    } else {
        let c = u[0];
        let r = u.drop_first();
        lemma_escaped_front(u);
        let ec = escape_char(c);
        let pre2 = pre + ec;
        assert(s =~= pre2 + escaped(r) + seq!['"'] + post);
        lemma_string_round_trip(r, pre2, post);
        assert forall|k: int| 0 <= k < ec.len() implies s[i + k] == #[trigger] ec[k] by {
            assert(s[i + k] == pre2[i + k]);
        }
        lemma_read_one(s, i, c);
        assert(seq![c] + r =~= u);
    }
}

/// Relies on `core::char::from_u32`: the character of a scalar value, `None`
/// for a surrogate or a value above `0x10FFFF`.
pub assume_specification[ core::char::from_u32 ](i: u32) -> (r: Option<char>)
    ensures
        r is Some <==> (i <= 0x10FFFF && !(0xD800 <= i && i < 0xE000)),
        r matches Some(c) ==> c as u32 == i,
;

/// Relies on `String`'s `FromIterator<&char>`: the characters in order.
#[verifier::external_body]
fn string_from_chars(v: &Vec<char>) -> (r: String)
    ensures
        r@ == v@,
{
    v.iter().collect()
}

/// First position at or after `i` that holds no whitespace, or the length.
pub fn skip_ws_at(s: &str, i: usize) -> (r: usize)
    ensures
        r == skip_ws(s@, i as nat),
{
    let n = s.unicode_len();
    let mut j: usize = i;
    while j < n && (s.get_char(j) == ' ' || s.get_char(j) == '\t' || s.get_char(j) == '\n'
        || s.get_char(j) == '\r')
        invariant
            n == s@.len(),
            i <= j,
            skip_ws(s@, i as nat) == skip_ws(s@, j as nat),
        decreases n - j,
    {
        j = j + 1;
    }
    j
}

/// Position just after the last character of `s` that is not whitespace, or
/// `0`.
pub fn trim_end_of(s: &str) -> (r: usize)
    ensures
        r == trim_end(s@, s@.len()),
        r <= s@.len(),
{
    let n = s.unicode_len();
    let mut j: usize = n;
    while j > 0 && (s.get_char(j - 1) == ' ' || s.get_char(j - 1) == '\t' || s.get_char(j - 1)
        == '\n' || s.get_char(j - 1) == '\r')
        invariant
            n == s@.len(),
            j <= n,
            trim_end(s@, n as nat) == trim_end(s@, j as nat),
        decreases j,
    {
        j = j - 1;
    }
    j
}

fn hex_text(d: u32) -> (r: String)
    requires
        d < 16,
    ensures
        r@ == seq![hex_char(d as nat)],
{
    if d < 10 {
        return digit_text(d as u128);
    }
    let t = if d == 10 {
        proof { reveal_strlit("a"); }
        "a"
    } else if d == 11 {
        proof { reveal_strlit("b"); }
        "b"
    } else if d == 12 {
        proof { reveal_strlit("c"); }
        "c"
    } else if d == 13 {
        proof { reveal_strlit("d"); }
        "d"
    } else if d == 14 {
        proof { reveal_strlit("e"); }
        "e"
    } else {
        proof { reveal_strlit("f"); }
        "f"
    };
    assert(t@ =~= seq![hex_char(d as nat)]);
    String::from_str(t)
}

/// Writes `s` as the body of a JSON string: the escapes that serde_json
/// writes, and every other character as it is.
pub fn escape_text(s: &str) -> (r: String)
    ensures
        r@ == escaped(s@),
{
    let n = s.unicode_len();
    let mut out = String::new();
    let mut i: usize = 0;
    while i < n
        invariant
            n == s@.len(),
            i <= n,
            out@ == escaped(s@.subrange(0, i as int)),
        decreases n - i,
    {
        let c = s.get_char(i);
        let ghost before = out@;
        proof {
            let t = s@.subrange(0, i + 1);
            assert(t.drop_last() =~= s@.subrange(0, i as int));
            assert(t.last() == c);
            reveal_strlit("\\\"");
            reveal_strlit("\\\\");
            reveal_strlit("\\b");
            reveal_strlit("\\f");
            reveal_strlit("\\n");
            reveal_strlit("\\r");
            reveal_strlit("\\t");
            reveal_strlit("\\u00");
        }
        if c == '"' {
            out.append("\\\"");
        } else if c == '\\' {
            out.append("\\\\");
        } else if c == '\u{8}' {
            out.append("\\b");
        } else if c == '\u{c}' {
            out.append("\\f");
        } else if c == '\n' {
            out.append("\\n");
        } else if c == '\r' {
            out.append("\\r");
        } else if c == '\t' {
            out.append("\\t");
        } else if 32 > (c as u32) {
            out.append("\\u00");
            let h = hex_text((c as u32) / 16);
            out.append(h.as_str());
            let l = hex_text((c as u32) % 16);
            out.append(l.as_str());
        } else {
            out.append(s.substring_char(i, i + 1));
        }
        assert(out@ =~= before + escape_char(c));
        i = i + 1;
    }
    assert(s@.subrange(0, n as int) =~= s@);
    out
}

fn hex_digit(c: char) -> (r: Option<u32>)
    ensures
        match r {
            Some(v) => hex_value(c) == v as int,
            None => hex_value(c) < 0,
        },
{
    if '0' <= c && c <= '9' {
        Some(c as u32 - '0' as u32)
    } else if 'a' <= c && c <= 'f' {
        Some(c as u32 - 'a' as u32 + 10)
    } else if 'A' <= c && c <= 'F' {
        Some(c as u32 - 'A' as u32 + 10)
    } else {
        None
    }
}

fn read_hex4(s: &str, i: usize) -> (r: Option<u32>)
    ensures
        match r {
            Some(v) => hex4(s@, i as int) == v as int,
            None => hex4(s@, i as int) < 0,
        },
{
    let n = s.unicode_len();
    if i > n || n - i < 4 {
        return None;
    }
    match (hex_digit(s.get_char(i)), hex_digit(s.get_char(i + 1)), hex_digit(s.get_char(i + 2)), hex_digit(s.get_char(i + 3))) {
        (Some(a), Some(b), Some(c), Some(d)) => Some(a * 4096 + b * 256 + c * 16 + d),
        _ => None,
    }
}

fn read_escape(s: &str, i: usize) -> (r: Option<(char, usize)>)
    ensures
        match r {
            Some((c, k)) => escape_at(s@, i as int) == Some((c, k as int)),
            None => escape_at(s@, i as int) is None,
        },
{
    let n = s.unicode_len();
    if i >= n || n - i < 2 {
        return None;
    }
    let e = s.get_char(i + 1);
    if e == '"' || e == '\\' || e == '/' {
        return Some((e, i + 2));
    } else if e == 'b' {
        return Some(('\u{8}', i + 2));
    } else if e == 'f' {
        return Some(('\u{c}', i + 2));
    } else if e == 'n' {
        return Some(('\n', i + 2));
    } else if e == 'r' {
        return Some(('\r', i + 2));
    } else if e == 't' {
        return Some(('\t', i + 2));
    } else if e != 'u' {
        return None;
    }
    let v = match read_hex4(s, i + 2) {
        Some(v) => v,
        None => return None,
    };
    if 0xDC00 <= v && v < 0xE000 {
        return None;
    }
    if 0xD800 <= v && v < 0xDC00 {
        if n - i < 8 || s.get_char(i + 6) != '\\' || s.get_char(i + 7) != 'u' {
            return None;
        }
        let w = match read_hex4(s, i + 8) {
            Some(w) => w,
            None => return None,
        };
        if !(0xDC00 <= w && w < 0xE000) {
            return None;
        }
        let code = 0x10000 + (v - 0xD800) * 1024 + (w - 0xDC00);
        match core::char::from_u32(code) {
            Some(c) => {
                proof { lemma_char_code(c); }
                Some((c, i + 12))
            },
            None => None,
        }
    } else {
        match core::char::from_u32(v) {
            Some(c) => {
                proof { lemma_char_code(c); }
                Some((c, i + 6))
            },
            None => None,
        }
    }
}

/// Reads the body of a JSON string that starts at `i`, just after its
/// opening quote: the characters it stands for and the position after its
/// closing quote.
pub fn read_string(s: &str, i: usize) -> (r: Option<(String, usize)>)
    ensures
        match r {
            Some((t, k)) => string_at(s@, i as int) == Some((t@, k as int)),
            None => string_at(s@, i as int) is None,
        },
{
    let n = s.unicode_len();
    let mut out: Vec<char> = Vec::new();
    let mut j: usize = i;
    loop
        invariant
            n == s@.len(),
            i <= j,
            string_at(s@, i as int) == match string_at(s@, j as int) {
                Some((t, k)) => Some((out@ + t, k)),
                None => None::<(Seq<char>, int)>,
            },
        decreases n - j,
    {
        if j >= n {
            return None;
        }
        let c = s.get_char(j);
        if c == '"' {
            assert(out@ + Seq::<char>::empty() =~= out@);
            let t = string_from_chars(&out);
            return Some((t, j + 1));
        } else if c == '\\' {
            match read_escape(s, j) {
                Some((e, j2)) => {
                    if j2 <= j || j2 > n {
                        return None;
                    }
                    proof {
                        match string_at(s@, j2 as int) {
                            Some((t, k)) => {
                                assert(out@ + (seq![e] + t) =~= out@.push(e) + t);
                            },
                            None => {},
                        }
                    }
                    out.push(e);
                    j = j2;
                },
                None => {
                    return None;
                },
            }
        } else if 32 > (c as u32) {
            return None;
        } else {
            proof {
                match string_at(s@, j + 1) {
                    Some((t, k)) => {
                        assert(out@ + (seq![c] + t) =~= out@.push(c) + t);
                    },
                    None => {},
                }
            }
            out.push(c);
            j = j + 1;
        }
    }
}

/// A character that ends a bare JSON value (a number, `true`, `false`,
/// `null`).
pub open spec fn ends_bare(c: char) -> bool {
    c == ',' || c == '}' || c == ']' || c == '"' || is_ws(c)
}

/// End of the bare value that starts at `i`.
pub open spec fn bare_end(s: Seq<char>, i: nat) -> nat
    decreases s.len() - i,
{
    if i < s.len() && !ends_bare(s[i as int]) {
        bare_end(s, i + 1)
    } else {
        i
    }
}

/// End of an object or array whose scan is at `i`, `depth` brackets deep:
/// the position after the bracket that brings the depth back to zero.
/// Strings are skipped whole, so brackets inside them do not count.
pub open spec fn nested_end(s: Seq<char>, i: int, depth: nat) -> Option<int>
    decreases s.len() - i,
{
    if i < 0 || i >= s.len() {
        None
    } else if s[i] == '"' {
        match string_at(s, i + 1) {
            Some((_, k)) => if i < k && k <= s.len() {
                nested_end(s, k, depth)
            } else {
                None
            },
            None => None,
        }
    } else if s[i] == '{' || s[i] == '[' {
        nested_end(s, i + 1, depth + 1)
    } else if s[i] == '}' || s[i] == ']' {
        if depth <= 1 {
            Some(i + 1)
        } else {
            nested_end(s, i + 1, (depth - 1) as nat)
        }
    } else {
        nested_end(s, i + 1, depth)
    }
}

/// End of the JSON value that starts at `i`: a string, an object or array
/// with its brackets balanced, or a bare value. `None` where no value starts.
pub open spec fn value_end(s: Seq<char>, i: int) -> Option<int> {
    if i < 0 || i >= s.len() {
        None
    } else if s[i] == '"' {
        match string_at(s, i + 1) {
            Some((_, k)) => Some(k),
            None => None,
        }
    } else if s[i] == '{' || s[i] == '[' {
        nested_end(s, i, 0)
    } else if ends_bare(s[i]) {
        None
    } else {
        Some(bare_end(s, i as nat) as int)
    }
}

fn is_ws_char(c: char) -> (r: bool)
    ensures
        r == is_ws(c),
{
    c == ' ' || c == '\t' || c == '\n' || c == '\r'
}

fn ends_bare_char(c: char) -> (r: bool)
    ensures
        r == ends_bare(c),
{
    c == ',' || c == '}' || c == ']' || c == '"' || is_ws_char(c)
}

/// End of the JSON value that starts at `i`.
pub fn value_end_at(s: &str, i: usize) -> (r: Option<usize>)
    ensures
        match r {
            Some(k) => value_end(s@, i as int) == Some(k as int),
            None => value_end(s@, i as int) is None,
        },
{
    let n = s.unicode_len();
    if i >= n {
        return None;
    }
    let c = s.get_char(i);
    if c == '"' {
        return match read_string(s, i + 1) {
            Some((_, k)) => Some(k),
            None => None,
        };
    }
    if !(c == '{' || c == '[') {
        if ends_bare_char(c) {
            return None;
        }
        let mut j: usize = i;
        while j < n && !ends_bare_char(s.get_char(j))
            invariant
                n == s@.len(),
                i <= j,
                bare_end(s@, i as nat) == bare_end(s@, j as nat),
            decreases n - j,
        {
            j = j + 1;
        }
        return Some(j);
    }
    let mut j: usize = i;
    let mut depth: usize = 0;
    loop
        invariant
            n == s@.len(),
            i <= j,
            depth <= j - i,
            value_end(s@, i as int) == nested_end(s@, j as int, depth as nat),
        decreases n - j,
    {
        if j >= n {
            return None;
        }
        let c = s.get_char(j);
        if c == '"' {
            match read_string(s, j + 1) {
                Some((_, k)) => {
                    if !(j < k && k <= n) {
                        return None;
                    }
                    j = k;
                },
                None => {
                    return None;
                },
            }
        } else if c == '{' || c == '[' {
            depth = depth + 1;
            j = j + 1;
        } else if c == '}' || c == ']' {
            if depth <= 1 {
                return Some(j + 1);
            }
            depth = depth - 1;
            j = j + 1;
        } else {
            j = j + 1;
        }
    }
}

} // verus!
