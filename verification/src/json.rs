//! JSON strings.

use vstd::prelude::*;
use vstd::slice::slice_subrange;
use vstd::string::*;

verus! {

/// A hexadecimal digit.
pub open spec fn hex(d: int) -> char {
    if d < 10 {
        (d + 48) as char
    } else {
        (d + 87) as char
    }
}

/// How a character is written.
pub open spec fn escaped_char(c: char) -> Seq<char> {
    if c == '"' {
        seq!['\\', '"']
    } else if c == '\\' {
        seq!['\\', '\\']
    } else if c == '\n' {
        seq!['\\', 'n']
    } else if c == '\r' {
        seq!['\\', 'r']
    } else if c == '\t' {
        seq!['\\', 't']
    } else if c as u32 <= 0x1f {
        seq!['\\', 'u', '0', '0', hex(c as int / 16), hex(c as int % 16)]
    } else {
        seq![c]
    }
}

/// How a text is written.
pub open spec fn escaped(s: Seq<char>) -> Seq<char>
    decreases s.len(),
{
    if s.len() == 0 {
        Seq::empty()
    } else {
        escaped(s.drop_last()) + escaped_char(s.last())
    }
}

/// A text in double quotes.
pub open spec fn json_string(s: Seq<char>) -> Seq<char> {
    seq!['"'] + escaped(s) + seq!['"']
}

fn hex_digit(d: u32) -> (r: char)
    requires
        d < 16,
    ensures
        r == hex(d as int),
{
    if d == 0 {
        '0'
    } else if d == 1 {
        '1'
    } else if d == 2 {
        '2'
    } else if d == 3 {
        '3'
    } else if d == 4 {
        '4'
    } else if d == 5 {
        '5'
    } else if d == 6 {
        '6'
    } else if d == 7 {
        '7'
    } else if d == 8 {
        '8'
    } else if d == 9 {
        '9'
    } else if d == 10 {
        'a'
    } else if d == 11 {
        'b'
    } else if d == 12 {
        'c'
    } else if d == 13 {
        'd'
    } else if d == 14 {
        'e'
    } else {
        'f'
    }
}

fn push_escaped(out: &mut Vec<char>, c: char)
    ensures
        final(out)@ == old(out)@ + escaped_char(c),
{
    let v: u32 = c as u32;
    if c == '"' {
        out.push('\\');
        out.push('"');
    } else if c == '\\' {
        out.push('\\');
        out.push('\\');
    } else if c == '\n' {
        out.push('\\');
        out.push('n');
    } else if c == '\r' {
        out.push('\\');
        out.push('r');
    } else if c == '\t' {
        out.push('\\');
        out.push('t');
    } else if v <= 0x1f {
        out.push('\\');
        out.push('u');
        out.push('0');
        out.push('0');
        out.push(hex_digit(v / 16));
        out.push(hex_digit(v % 16));
    } else {
        out.push(c);
    }
    assert(out@ =~= old(out)@ + escaped_char(c));
}

/// Writes a text as a JSON string.
pub fn write_json_string(out: &mut Vec<char>, value: &str)
    ensures
        final(out)@ == old(out)@ + json_string(value@),
{
    let ghost o0 = out@;
    let n = value.unicode_len();
    out.push('"');
    let mut i: usize = 0;
    assert(value@.take(0) =~= Seq::<char>::empty());
    assert(out@ =~= o0 + (seq!['"'] + escaped(value@.take(0))));
    while i < n
        invariant
            i <= n,
            n == value@.len(),
            out@ == o0 + (seq!['"'] + escaped(value@.take(i as int))),
        decreases n - i,
    {
        push_escaped(out, value.get_char(i));
        assert(value@.take(i + 1).drop_last() =~= value@.take(i as int));
        assert(out@ =~= o0 + (seq!['"'] + escaped(value@.take(i + 1))));
        i += 1;
    }
    out.push('"');
    assert(value@.take(n as int) =~= value@);
    assert(out@ =~= o0 + json_string(value@));
}

/// No two texts are written alike.
pub proof fn law_json_strings_are_distinct(a: Seq<char>, b: Seq<char>)
    requires
        json_string(a) == json_string(b),
    ensures
        a == b,
{
    let ea = escaped(a);
    let eb = escaped(b);
    assert(json_string(a).len() == ea.len() + 2);
    assert(json_string(b).len() == eb.len() + 2);
    assert(ea =~= eb) by {
        assert forall|i: int| 0 <= i < ea.len() implies ea[i] == eb[i] by {
            assert(json_string(a)[i + 1] == ea[i]);
            assert(json_string(b)[i + 1] == eb[i]);
        }
    }
    lemma_unescape(a);
    lemma_unescape(b);
}

/// The value of a hexadecimal digit.
pub open spec fn hex_value(c: char) -> Option<int> {
    if '0' <= c <= '9' {
        Some(c as int - 48)
    } else if 'a' <= c <= 'f' {
        Some(c as int - 87)
    } else if 'A' <= c <= 'F' {
        Some(c as int - 55)
    } else {
        None
    }
}

/// The value of the first `n` characters as hexadecimal digits.
pub open spec fn hex_number(t: Seq<char>, n: nat) -> Option<int>
    decreases n,
{
    if n == 0 {
        Some(0)
    } else if t.len() < n {
        None
    } else {
        match (hex_number(t, (n - 1) as nat), hex_value(t[n - 1])) {
            (Some(v), Some(d)) => Some(v * 16 + d),
            _ => None,
        }
    }
}

/// The first half of a surrogate pair.
pub open spec fn is_high(u: int) -> bool {
    0xD800 <= u < 0xDC00
}

/// The second half of a surrogate pair.
pub open spec fn is_low(u: int) -> bool {
    0xDC00 <= u < 0xE000
}

/// The character that an escape at the front of `t` stands for, and the length of the escape.
pub open spec fn escape_at(t: Seq<char>) -> Option<(char, nat)> {
    if t.len() < 2 {
        None
    } else if t[1] == '"' || t[1] == '\\' || t[1] == '/' {
        Some((t[1], 2))
    } else if t[1] == 'b' {
        Some((8 as char, 2))
    } else if t[1] == 'f' {
        Some((12 as char, 2))
    } else if t[1] == 'n' {
        Some(('\n', 2))
    } else if t[1] == 'r' {
        Some(('\r', 2))
    } else if t[1] == 't' {
        Some(('\t', 2))
    } else if t[1] == 'u' {
        match hex_number(t.skip(2), 4) {
            None => None,
            Some(u) => if is_low(u) {
                None
            } else if !is_high(u) {
                Some((u as char, 6))
            } else if t.len() >= 8 && t[6] == '\\' && t[7] == 'u' {
                match hex_number(t.skip(8), 4) {
                    Some(l) => if is_low(l) {
                        Some(((0x10000 + (u - 0xD800) * 0x400 + (l - 0xDC00)) as char, 12))
                    } else {
                        None
                    },
                    None => None,
                }
            } else {
                None
            },
        }
    } else {
        None
    }
}

/// The first character of a text between the quotes of a JSON string, and how long it is written.
pub open spec fn char_at(t: Seq<char>) -> Option<(char, nat)> {
    if t[0] == '\\' {
        escape_at(t)
    } else {
        Some((t[0], 1))
    }
}

/// The text that is written as `t` between the quotes of a JSON string; none where an escape is
/// broken.
pub open spec fn unescaped(t: Seq<char>) -> Option<Seq<char>>
    decreases t.len(),
{
    if t.len() == 0 {
        Some(Seq::empty())
    } else {
        match char_at(t) {
            None => None,
            Some((c, n)) => match unescaped(t.skip(n as int)) {
                Some(rest) => Some(seq![c] + rest),
                None => None,
            },
        }
    }
}

proof fn lemma_first(c: char, rest: Seq<char>)
    ensures
        char_at(escaped_char(c) + rest) == Some((c, escaped_char(c).len())),
        unescaped(escaped_char(c) + rest) == (match unescaped(rest) {
            Some(r) => Some(seq![c] + r),
            None => None,
        }),
{
    let t = escaped_char(c) + rest;
    if c == '"' || c == '\\' || c == '\n' || c == '\r' || c == '\t' {
        assert(t.skip(2) =~= rest);
        assert(t[1] != 'u');
    } else if c as u32 <= 0x1f {
        let u = t.skip(2);
        assert(t.skip(6) =~= rest);
        assert(u[0] == '0' && u[1] == '0');
        assert(u[2] == hex(c as int / 16));
        assert(u[3] == hex(c as int % 16));
        lemma_hex(c as int / 16);
        lemma_hex(c as int % 16);
        reveal_with_fuel(hex_number, 5);
        assert(hex_number(u, 4) == Some(c as int));
    } else {
        assert(t.skip(1) =~= rest);
    }
}

proof fn lemma_escaped_front(s: Seq<char>)
    requires
        s.len() > 0,
    ensures
        escaped(s) == escaped_char(s[0]) + escaped(s.skip(1)),
    decreases s.len(),
{
    let d = s.drop_last();
    if d.len() == 0 {
        assert(s.skip(1) =~= Seq::<char>::empty());
        assert(d =~= Seq::<char>::empty());
        assert(escaped(s) =~= escaped_char(s[0]) + escaped(s.skip(1)));
    } else {
        lemma_escaped_front(d);
        assert(s.skip(1).drop_last() =~= d.skip(1));
        assert(escaped(s) =~= escaped_char(s[0]) + escaped(s.skip(1)));
    }
}

proof fn lemma_unescape(s: Seq<char>)
    ensures
        unescaped(escaped(s)) == Some(s),
    decreases s.len(),
{
    if s.len() > 0 {
        lemma_escaped_front(s);
        lemma_unescape(s.skip(1));
        lemma_first(s[0], escaped(s.skip(1)));
        assert(seq![s[0]] + s.skip(1) =~= s);
    }
}

/// A written text reads back as itself.
pub proof fn law_json_reads_back(s: Seq<char>)
    ensures
        unescaped(escaped(s)) == Some(s),
{
    lemma_unescape(s);
}

/// `char::from_u32`: a number is a character exactly where it is a Unicode scalar value, that is up
/// to 0x10FFFF and not a surrogate; the character then has that number.
pub assume_specification[ char::from_u32 ](i: u32) -> (r: Option<char>)
    ensures
        r == (if i < 0xD800 || 0xE000 <= i <= 0x10FFFF {
            Some(i as char)
        } else {
            None
        }),
;

fn hex_of(c: char) -> (r: Option<u32>)
    ensures
        match r {
            Some(v) => hex_value(c) == Some(v as int) && v < 16,
            None => hex_value(c) is None,
        },
{
    let v: u32 = c as u32;
    if 48 <= v && v <= 57 {
        Some(v - 48)
    } else if 97 <= v && v <= 102 {
        Some(v - 87)
    } else if 65 <= v && v <= 70 {
        Some(v - 55)
    } else {
        None
    }
}

/// The four hexadecimal digits at `i`.
fn unit_at(t: &[char], i: usize) -> (r: Option<u32>)
    requires
        i <= t@.len(),
    ensures
        match r {
            Some(v) => hex_number(t@.skip(i as int), 4) == Some(v as int) && v <= 0xFFFF && i + 4
                <= t@.len(),
            None => hex_number(t@.skip(i as int), 4) is None,
        },
{
    let ghost u = t@.skip(i as int);
    proof {
        reveal_with_fuel(hex_number, 5);
    }
    if t.len() - i < 4 {
        return None;
    }
    assert(u[0] == t@[i as int] && u[1] == t@[i + 1] && u[2] == t@[i + 2] && u[3] == t@[i + 3]);
    match (hex_of(t[i]), hex_of(t[i + 1]), hex_of(t[i + 2]), hex_of(t[i + 3])) {
        (Some(a), Some(b), Some(c), Some(d)) => Some(a * 4096 + b * 256 + c * 16 + d),
        _ => None,
    }
}

/// The character that the escape at `i` stands for, and its length.
fn read_escape(t: &[char], i: usize) -> (r: Option<(char, usize)>)
    requires
        i < t@.len(),
    ensures
        match r {
            Some((c, n)) => escape_at(t@.skip(i as int)) == Some((c, n as nat)) && 0 < n && i + n
                <= t@.len(),
            None => escape_at(t@.skip(i as int)) is None,
        },
{
    let ghost u = t@.skip(i as int);
    let n = t.len();
    if n - i < 2 {
        return None;
    }
    let c = t[i + 1];
    assert(u[1] == c);
    if c == '"' || c == '\\' || c == '/' {
        Some((c, 2))
    } else if c == 'b' {
        Some((8u8 as char, 2))
    } else if c == 'f' {
        Some((12u8 as char, 2))
    } else if c == 'n' {
        Some(('\n', 2))
    } else if c == 'r' {
        Some(('\r', 2))
    } else if c == 't' {
        Some(('\t', 2))
    } else if c == 'u' {
        assert(u.skip(2) =~= t@.skip(i + 2));
        match unit_at(t, i + 2) {
            None => None,
            Some(h) => {
                if !(0xD800 <= h && h < 0xDC00) {
                    match char::from_u32(h) {
                        Some(ch) => {
                            assert(ch == (h as int) as char);
                            Some((ch, 6))
                        },
                        None => None,
                    }
                } else if n - i >= 8 && t[i + 6] == '\\' && t[i + 7] == 'u' {
                    assert(u[6] == t@[i + 6] && u[7] == t@[i + 7]);
                    assert(u.skip(8) =~= t@.skip(i + 8));
                    match unit_at(t, i + 8) {
                        Some(l) => {
                            if 0xDC00 <= l && l < 0xE000 {
                                let v: u32 = 0x10000 + (h - 0xD800) * 0x400 + (l - 0xDC00);
                                match char::from_u32(v) {
                                    Some(ch) => {
                                        assert(ch == (v as int) as char);
                                        Some((ch, 12))
                                    },
                                    None => None,
                                }
                            } else {
                                None
                            }
                        },
                        None => None,
                    }
                } else {
                    assert(n - i >= 8 ==> u[6] == t@[i + 6] && u[7] == t@[i + 7]);
                    None
                }
            },
        }
    } else {
        None
    }
}

/// Reads what stands between the quotes of a JSON string; none where an escape is broken.
pub fn unescape(t: &[char]) -> (r: Option<Vec<char>>)
    ensures
        match r {
            Some(v) => unescaped(t@) == Some(v@),
            None => unescaped(t@) is None,
        },
{
    let mut out: Vec<char> = Vec::new();
    let n = t.len();
    let mut i: usize = 0;
    assert(t@.skip(0) =~= t@);
    proof {
        match unescaped(t@) {
            Some(rest) => {
                assert(out@ + rest =~= rest);
            },
            None => {},
        }
    }
    while i < n
        invariant
            i <= n,
            n == t@.len(),
            unescaped(t@) == (match unescaped(t@.skip(i as int)) {
                Some(rest) => Some(out@ + rest),
                None => None,
            }),
        decreases n - i,
    {
        let ghost u = t@.skip(i as int);
        let ghost o = out@;
        assert(u[0] == t@[i as int]);
        let (c, len): (char, usize) = if t[i] == '\\' {
            match read_escape(t, i) {
                Some(e) => e,
                None => {
                    return None;
                },
            }
        } else {
            (t[i], 1)
        };
        assert(char_at(u) == Some((c, len as nat)));
        assert(u.skip(len as int) =~= t@.skip(i + len));
        out.push(c);
        proof {
            match unescaped(t@.skip(i + len)) {
                Some(rest) => {
                    assert(o + (seq![c] + rest) =~= out@ + rest);
                },
                None => {},
            }
        }
        i += len;
    }
    assert(t@.skip(n as int) =~= Seq::<char>::empty());
    assert(out@ + Seq::<char>::empty() =~= out@);
    Some(out)
}

/// The closing quote of a JSON string whose text starts at `i`.
pub open spec fn string_end(s: Seq<char>, i: int) -> Option<int>
    decreases s.len() + 2 - i,
{
    if i >= s.len() {
        None
    } else if s[i] == '"' {
        Some(i)
    } else if s[i] == '\\' {
        string_end(s, i + 2)
    } else {
        string_end(s, i + 1)
    }
}

/// The text of the JSON string that opens at `i`, and the place behind its closing quote.
pub open spec fn string_at(s: Seq<char>, i: int) -> Option<(Seq<char>, int)> {
    if 0 <= i < s.len() && s[i] == '"' {
        match string_end(s, i + 1) {
            Some(e) => match unescaped(s.subrange(i + 1, e)) {
                Some(t) => Some((t, e + 1)),
                None => None,
            },
            None => None,
        }
    } else {
        None
    }
}

/// JSON white space.
pub open spec fn is_json_space(c: char) -> bool {
    c == ' ' || c == '\t' || c == '\n' || c == '\r'
}

/// The first place from `i` on without white space.
pub open spec fn past_space(s: Seq<char>, i: int) -> int
    decreases s.len() - i,
{
    if 0 <= i < s.len() && is_json_space(s[i]) {
        past_space(s, i + 1)
    } else {
        i
    }
}

/// Looks from `i` on, `depth` brackets deep, for the key `key` of the outermost object; gives the
/// place of its value.
pub open spec fn member_from(s: Seq<char>, key: Seq<char>, i: int, depth: nat) -> Option<int>
    decreases s.len() - i,
    when i >= 0
    via member_from_decreases
{
    if i >= s.len() {
        None
    } else if s[i] == '"' {
        match string_end(s, i + 1) {
            None => None,
            Some(e) => {
                let colon = past_space(s, e + 1);
                if depth == 1 && s.subrange(i + 1, e) == key && colon < s.len() && s[colon]
                    == ':' {
                    Some(past_space(s, colon + 1))
                } else {
                    member_from(s, key, e + 1, depth)
                }
            },
        }
    } else if s[i] == '{' || s[i] == '[' {
        member_from(s, key, i + 1, depth + 1)
    } else if s[i] == '}' || s[i] == ']' {
        if depth <= 1 {
            None
        } else {
            member_from(s, key, i + 1, (depth - 1) as nat)
        }
    } else {
        member_from(s, key, i + 1, depth)
    }
}

#[via_fn]
proof fn member_from_decreases(s: Seq<char>, key: Seq<char>, i: int, depth: nat) {
    lemma_string_end(s, i + 1);
}

proof fn lemma_string_end(s: Seq<char>, i: int)
    ensures
        string_end(s, i) matches Some(e) ==> i <= e < s.len(),
    decreases s.len() + 2 - i,
{
    if i < s.len() && s[i] != '"' {
        lemma_string_end(s, i + 2);
        lemma_string_end(s, i + 1);
    }
}

/// The place of the value of `key` in the JSON object at the front of `s`.
pub open spec fn member(s: Seq<char>, key: Seq<char>) -> Option<int> {
    if s.len() > 0 && s[0] == '{' {
        member_from(s, key, 1, 1)
    } else {
        None
    }
}

fn string_close(s: &[char], i: usize) -> (r: Option<usize>)
    ensures
        match r {
            Some(e) => string_end(s@, i as int) == Some(e as int) && i <= e < s@.len(),
            None => string_end(s@, i as int) is None,
        },
{
    let n = s.len();
    let mut j: usize = i;
    while j < n
        invariant
            i <= j,
            n == s@.len(),
            string_end(s@, j as int) == string_end(s@, i as int),
        decreases n - j,
    {
        if s[j] == '"' {
            return Some(j);
        }
        if s[j] == '\\' {
            if n - j <= 2 {
                assert(string_end(s@, j + 2) is None);
                return None;
            }
            j += 2;
        } else {
            j += 1;
        }
    }
    None
}

/// Reads the JSON string that opens at `i`; also gives the place behind it.
pub fn read_string(s: &[char], i: usize) -> (r: Option<(Vec<char>, usize)>)
    ensures
        match r {
            Some((t, e)) => string_at(s@, i as int) == Some((t@, e as int)) && e <= s@.len(),
            None => string_at(s@, i as int) is None,
        },
{
    if i < s.len() && s[i] == '"' {
        match string_close(s, i + 1) {
            Some(e) => match unescape(slice_subrange(s, i + 1, e)) {
                Some(t) => Some((t, e + 1)),
                None => None,
            },
            None => None,
        }
    } else {
        None
    }
}

fn space_end(s: &[char], i: usize) -> (r: usize)
    requires
        i <= s@.len(),
    ensures
        r == past_space(s@, i as int),
        i <= r <= s@.len(),
{
    let n = s.len();
    let mut j: usize = i;
    while j < n && (s[j] == ' ' || s[j] == '\t' || s[j] == '\n' || s[j] == '\r')
        invariant
            i <= j <= n,
            n == s@.len(),
            past_space(s@, j as int) == past_space(s@, i as int),
        decreases n - j,
    {
        j += 1;
    }
    j
}

fn stands(s: &[char], from: usize, to: usize, key: &[char]) -> (r: bool)
    requires
        from <= to <= s@.len(),
    ensures
        r == (s@.subrange(from as int, to as int) == key@),
{
    let ghost part = s@.subrange(from as int, to as int);
    if to - from != key.len() {
        return false;
    }
    let mut k: usize = 0;
    while k < key.len()
        invariant
            k <= key@.len(),
            from + key@.len() == to,
            to <= s@.len(),
            part == s@.subrange(from as int, to as int),
            forall|j: int| 0 <= j < k ==> part[j] == #[trigger] key@[j],
        decreases key@.len() - k,
    {
        if s[from + k] != key[k] {
            assert(part[k as int] != key@[k as int]);
            return false;
        }
        k += 1;
    }
    assert(part =~= key@);
    true
}

/// Finds the value of `key` in the JSON object at the front of `s`.
pub fn find_member(s: &[char], key: &[char]) -> (r: Option<usize>)
    ensures
        match r {
            Some(v) => member(s@, key@) == Some(v as int) && v <= s@.len(),
            None => member(s@, key@) is None,
        },
{
    let n = s.len();
    if n == 0 || s[0] != '{' {
        return None;
    }
    let mut i: usize = 1;
    let mut depth: usize = 1;
    while i < n
        invariant
            1 <= i <= n,
            1 <= depth <= i,
            n == s@.len(),
            member_from(s@, key@, i as int, depth as nat) == member_from(s@, key@, 1, 1),
            member(s@, key@) == member_from(s@, key@, 1, 1),
        decreases n - i,
    {
        let c = s[i];
        if c == '"' {
            match string_close(s, i + 1) {
                None => {
                    return None;
                },
                Some(e) => {
                    let colon = space_end(s, e + 1);
                    if depth == 1 && colon < n && s[colon] == ':' && stands(s, i + 1, e, key) {
                        return Some(space_end(s, colon + 1));
                    }
                    i = e + 1;
                },
            }
        } else if c == '{' || c == '[' {
            i += 1;
            depth += 1;
        } else if c == '}' || c == ']' {
            if depth <= 1 {
                return None;
            }
            i += 1;
            depth -= 1;
        } else {
            i += 1;
        }
    }
    None
}

/// The closing quote of a written text is found behind it, whatever follows.
proof fn lemma_string_close(pre: Seq<char>, t: Seq<char>, post: Seq<char>)
    ensures
        string_end(pre + escaped(t) + seq!['"'] + post, pre.len() as int) == Some(
            (pre.len() + escaped(t).len()) as int,
        ),
    decreases t.len(),
{
    let s = pre + escaped(t) + seq!['"'] + post;
    if t.len() == 0 {
        assert(s[pre.len() as int] == '"');
    } else {
        let c = t[0];
        let next = pre + escaped_char(c);
        lemma_escaped_front(t);
        lemma_string_close(next, t.skip(1), post);
        assert(next + escaped(t.skip(1)) + seq!['"'] + post =~= s);
        let e = escaped_char(c);
        let at = pre.len() as int;
        assert(forall|k: int| 0 <= k < e.len() ==> s[at + k] == e[k]);
        lemma_written_char(s, at, c);
    }
}

/// A written character holds no closing quote.
proof fn lemma_written_char(s: Seq<char>, at: int, c: char)
    requires
        0 <= at,
        at + escaped_char(c).len() <= s.len(),
        forall|k: int| 0 <= k < escaped_char(c).len() ==> s[at + k] == escaped_char(c)[k],
    ensures
        string_end(s, at) == string_end(s, at + escaped_char(c).len()),
{
    let e = escaped_char(c);
    assert(s[at + 0] == e[0]);
    if e.len() == 6 {
        lemma_hex(c as int / 16);
        lemma_hex(c as int % 16);
        assert(s[at + 2] == e[2] && s[at + 3] == e[3] && s[at + 4] == e[4] && s[at + 5] == e[5]);
        assert(string_end(s, at) == string_end(s, at + 2));
        assert(string_end(s, at + 2) == string_end(s, at + 3));
        assert(string_end(s, at + 3) == string_end(s, at + 4));
        assert(string_end(s, at + 4) == string_end(s, at + 5));
        assert(string_end(s, at + 5) == string_end(s, at + 6));
    }
}

proof fn lemma_hex(d: int)
    requires
        0 <= d < 16,
    ensures
        hex_value(hex(d)) == Some(d),
        hex(d) != '"',
        hex(d) != '\\',
{
}

/// A written JSON string is read back wherever it stands.
pub proof fn law_json_string_is_found(pre: Seq<char>, t: Seq<char>, post: Seq<char>)
    ensures
        string_at(pre + json_string(t) + post, pre.len() as int) == Some(
            (t, (pre.len() + json_string(t).len()) as int),
        ),
{
    let s = pre + json_string(t) + post;
    let p = pre.push('"');
    lemma_string_close(p, t, post);
    assert(p + escaped(t) + seq!['"'] + post =~= s);
    assert(s[pre.len() as int] == '"');
    assert(s.subrange(p.len() as int, (p.len() + escaped(t).len()) as int) =~= escaped(t));
    lemma_unescape(t);
}

} // verus!
