//! Text: decimal numbers, blanks, separated fields, and keys of flat JSON.
//!
//! Text is a slice of characters; a result that is part of the text is a subslice of it.

use vstd::prelude::*;
use vstd::slice::slice_subrange;
use vstd::string::*;

verus! {

pub open spec fn is_digit(c: char) -> bool {
    48 <= c as u32 <= 57
}

/// The digit of a value below ten.
pub open spec fn digit(d: nat) -> char {
    if d == 0 {
        '0'
    } else if d == 1 {
        '1'
    } else if d == 2 {
        '2'
    } else if d == 3 {
        '3'
    } else if d == 4 {
        '4'
    } else if d == 5 {
        '5'
    } else if d == 6 {
        '6'
    } else if d == 7 {
        '7'
    } else if d == 8 {
        '8'
    } else {
        '9'
    }
}

/// `n` in decimal, without leading zeros.
pub open spec fn decimal(n: nat) -> Seq<char>
    decreases n,
{
    if n < 10 {
        seq![digit(n)]
    } else {
        decimal(n / 10).push(digit(n % 10))
    }
}

/// `n` in decimal, with a sign when it is negative.
pub open spec fn signed_decimal(n: int) -> Seq<char> {
    if n < 0 {
        seq!['-'] + decimal((-n) as nat)
    } else {
        decimal(n as nat)
    }
}

pub open spec fn all_digits(s: Seq<char>) -> bool {
    forall|i: int| 0 <= i < s.len() ==> is_digit(#[trigger] s[i])
}

/// The value of a string of digits.
pub open spec fn digits_value(s: Seq<char>) -> nat
    decreases s.len(),
{
    if s.len() == 0 {
        0
    } else {
        10 * digits_value(s.drop_last()) + (s.last() as u32 - 48) as nat
    }
}

/// A nonempty string of digits with a value up to `max`.
pub open spec fn plain_number(s: Seq<char>, max: nat) -> Option<nat> {
    if s.len() > 0 && all_digits(s) && digits_value(s) <= max {
        Some(digits_value(s))
    } else {
        None
    }
}

/// An unsigned number up to `max`, perhaps with a plus sign.
pub open spec fn unsigned(s: Seq<char>, max: nat) -> Option<nat> {
    if s.len() > 0 && s[0] == '+' {
        plain_number(s.skip(1), max)
    } else {
        plain_number(s, max)
    }
}

/// A number from `-min` up to `max`, perhaps with a sign.
pub open spec fn signed(s: Seq<char>, min: nat, max: nat) -> Option<int> {
    if s.len() > 0 && s[0] == '-' {
        match plain_number(s.skip(1), min) {
            Some(v) => Some(-(v as int)),
            None => None,
        }
    } else {
        match unsigned(s, max) {
            Some(v) => Some(v as int),
            None => None,
        }
    }
}

/// Unicode white space.
pub open spec fn is_space(c: char) -> bool {
    let v = c as u32;
    ||| 9 <= v <= 13
    ||| v == 0x20
    ||| v == 0x85
    ||| v == 0xA0
    ||| v == 0x1680
    ||| 0x2000 <= v <= 0x200A
    ||| v == 0x2028
    ||| v == 0x2029
    ||| v == 0x202F
    ||| v == 0x205F
    ||| v == 0x3000
}

/// `s` without leading white space.
pub open spec fn trim_left(s: Seq<char>) -> Seq<char>
    decreases s.len(),
{
    if s.len() > 0 && is_space(s[0]) {
        trim_left(s.skip(1))
    } else {
        s
    }
}

/// `s` without trailing white space.
pub open spec fn trim_right(s: Seq<char>) -> Seq<char>
    decreases s.len(),
{
    if s.len() > 0 && is_space(s.last()) {
        trim_right(s.drop_last())
    } else {
        s
    }
}

pub open spec fn trim(s: Seq<char>) -> Seq<char> {
    trim_right(trim_left(s))
}

/// `pat` stands in `s` at `i`.
pub open spec fn occurs(s: Seq<char>, pat: Seq<char>, i: int) -> bool {
    0 <= i && i + pat.len() <= s.len() && s.subrange(i, i + pat.len()) == pat
}

/// The first place from `i` on at which `pat` stands in `s`.
pub open spec fn find_from(s: Seq<char>, pat: Seq<char>, i: int) -> Option<int>
    decreases s.len() + 1 - i,
{
    if i > s.len() {
        None
    } else if occurs(s, pat, i) {
        Some(i)
    } else {
        find_from(s, pat, i + 1)
    }
}

/// The first place at which `pat` stands in `s`.
pub open spec fn find(s: Seq<char>, pat: Seq<char>) -> Option<int> {
    find_from(s, pat, 0)
}

/// The first place of `c` in `s`.
pub open spec fn find_char(s: Seq<char>, c: char) -> Option<int>
    decreases s.len(),
{
    if s.len() == 0 {
        None
    } else if s[0] == c {
        Some(0)
    } else {
        match find_char(s.skip(1), c) {
            Some(i) => Some(i + 1),
            None => None,
        }
    }
}

/// The fields of `s` between separators `c`.
pub open spec fn fields(s: Seq<char>, c: char) -> Seq<Seq<char>>
    decreases s.len(),
{
    proof {
        lemma_find_char(s, c);
    }
    match find_char(s, c) {
        Some(i) => seq![s.take(i)] + fields(s.skip(i + 1), c),
        None => seq![s],
    }
}

/// The fields that are numbers up to `max`, blanks around them aside.
pub open spec fn numbers_in(parts: Seq<Seq<char>>, max: nat) -> Seq<nat>
    decreases parts.len(),
{
    if parts.len() == 0 {
        Seq::empty()
    } else {
        let rest = numbers_in(parts.skip(1), max);
        match unsigned(trim(parts[0]), max) {
            Some(v) => seq![v] + rest,
            None => rest,
        }
    }
}

/// Why a bracketed list cannot be taken out of a text.
#[derive(Clone, Copy, Debug, PartialEq, Eq, Structural)]
pub enum ListError {
    NoOpen,
    NoClose,
    /// The first closing bracket stands before the first opening one.
    Crossed,
}

/// What stands between the first opening and the first closing bracket of `s`.
pub open spec fn brackets(s: Seq<char>) -> Result<Seq<char>, ListError> {
    match (find_char(s, '['), find_char(s, ']')) {
        (None, _) => Err(ListError::NoOpen),
        (_, None) => Err(ListError::NoClose),
        (Some(a), Some(b)) => if a < b {
            Ok(s.subrange(a + 1, b))
        } else {
            Err(ListError::Crossed)
        },
    }
}

/// `key` in double quotes.
pub open spec fn quoted(key: Seq<char>) -> Seq<char> {
    seq!['"'] + key + seq!['"']
}

pub proof fn lemma_find_char(s: Seq<char>, c: char)
    ensures
        match find_char(s, c) {
            Some(i) => 0 <= i < s.len() && s[i] == c && forall|j: int|
                0 <= j < i ==> #[trigger] s[j] != c,
            None => forall|j: int| 0 <= j < s.len() ==> #[trigger] s[j] != c,
        },
    decreases s.len(),
{
    if s.len() > 0 && s[0] != c {
        lemma_find_char(s.skip(1), c);
        let t = s.skip(1);
        match find_char(t, c) {
            Some(i) => {
                assert(s[i + 1] == t[i]);
                assert forall|j: int| 0 <= j < i + 1 implies #[trigger] s[j] != c by {
                    if j > 0 {
                        assert(t[j - 1] == s[j]);
                    }
                }
            },
            None => {
                assert forall|j: int| 0 <= j < s.len() implies #[trigger] s[j] != c by {
                    if j > 0 {
                        assert(t[j - 1] == s[j]);
                    }
                }
            },
        }
    }
}

proof fn lemma_find_char_is(s: Seq<char>, c: char, i: int)
    requires
        0 <= i < s.len(),
        s[i] == c,
        forall|j: int| 0 <= j < i ==> #[trigger] s[j] != c,
    ensures
        find_char(s, c) == Some(i),
{
    lemma_find_char(s, c);
}

/// A found pattern stands where it was found, and nowhere before.
pub proof fn lemma_find_from(s: Seq<char>, pat: Seq<char>, i: int)
    requires
        0 <= i,
    ensures
        match find_from(s, pat, i) {
            Some(k) => i <= k && k + pat.len() <= s.len() && occurs(s, pat, k) && forall|j: int|
                i <= j < k ==> !#[trigger] occurs(s, pat, j),
            None => forall|j: int| i <= j ==> !#[trigger] occurs(s, pat, j),
        },
    decreases s.len() + 1 - i,
{
    if i <= s.len() && !occurs(s, pat, i) {
        lemma_find_from(s, pat, i + 1);
    }
}

proof fn lemma_value_grows(s: Seq<char>, k: int)
    requires
        0 <= k <= s.len(),
    ensures
        digits_value(s.take(k)) <= digits_value(s),
    decreases s.len(),
{
    if k == s.len() {
        assert(s.take(k) =~= s);
    } else {
        lemma_value_grows(s.drop_last(), k);
        assert(s.drop_last().take(k) =~= s.take(k));
    }
}

proof fn lemma_decimal(n: nat)
    ensures
        decimal(n).len() > 0,
        all_digits(decimal(n)),
        digits_value(decimal(n)) == n,
    decreases n,
{
    reveal_with_fuel(digits_value, 2);
    if n >= 10 {
        lemma_decimal(n / 10);
        assert(decimal(n).drop_last() =~= decimal(n / 10));
    } else {
        assert(decimal(n).drop_last() =~= Seq::<char>::empty());
    }
}

/// A number that is written in decimal reads back as itself.
pub proof fn law_decimal_reads_back(n: nat, max: nat)
    requires
        n <= max,
    ensures
        unsigned(decimal(n), max) == Some(n),
{
    lemma_decimal(n);
    assert(is_digit(decimal(n)[0]));
}

/// A signed number that is written in decimal reads back as itself.
pub proof fn law_signed_decimal_reads_back(n: int, min: nat, max: nat)
    requires
        -(min as int) <= n <= max,
    ensures
        signed(signed_decimal(n), min, max) == Some(n),
{
    if n < 0 {
        lemma_decimal((-n) as nat);
        assert(signed_decimal(n).skip(1) =~= decimal((-n) as nat));
    } else {
        lemma_decimal(n as nat);
        assert(is_digit(decimal(n as nat)[0]));
        law_decimal_reads_back(n as nat, max);
    }
}

/// The characters of a string.
pub fn chars_of(s: &str) -> (r: Vec<char>)
    ensures
        r@ == s@,
{
    let n = s.unicode_len();
    let mut r: Vec<char> = Vec::new();
    let mut i: usize = 0;
    while i < n
        invariant
            i <= n,
            n == s@.len(),
            r@ == s@.take(i as int),
        decreases n - i,
    {
        r.push(s.get_char(i));
        assert(s@.take(i + 1) =~= s@.take(i as int).push(s@[i as int]));
        i += 1;
    }
    assert(s@.take(n as int) =~= s@);
    r
}

/// Reads a nonempty string of digits with a value up to `max`.
pub fn parse_digits(s: &[char], max: u64) -> (r: Option<u64>)
    ensures
        match r {
            Some(v) => plain_number(s@, max as nat) == Some(v as nat),
            None => plain_number(s@, max as nat) is None,
        },
{
    let n = s.len();
    if n == 0 {
        return None;
    }
    let mut acc: u64 = 0;
    let mut i: usize = 0;
    while i < n
        invariant
            i <= n,
            n == s@.len(),
            all_digits(s@.take(i as int)),
            acc == digits_value(s@.take(i as int)),
            acc <= max,
        decreases n - i,
    {
        let v: u32 = s[i] as u32;
        if v < 48 || v > 57 {
            assert(!is_digit(s@[i as int]));
            return None;
        }
        let d: u64 = (v - 48) as u64;
        let ghost t = s@.take(i + 1);
        proof {
            assert(t.drop_last() =~= s@.take(i as int));
            assert(digits_value(t) == 10 * digits_value(s@.take(i as int)) + d);
            lemma_value_grows(s@, i + 1);
        }
        if d > max || acc > (max - d) / 10 {
            return None;
        }
        acc = acc * 10 + d;
        assert forall|j: int| 0 <= j < t.len() implies is_digit(#[trigger] t[j]) by {
            if j < i {
                assert(is_digit(s@.take(i as int)[j]));
            }
        }
        i += 1;
    }
    assert(s@.take(n as int) =~= s@);
    Some(acc)
}

/// Reads an unsigned number up to `max`.
pub fn parse_unsigned(s: &[char], max: u64) -> (r: Option<u64>)
    ensures
        match r {
            Some(v) => unsigned(s@, max as nat) == Some(v as nat),
            None => unsigned(s@, max as nat) is None,
        },
{
    let n = s.len();
    if n > 0 && s[0] == '+' {
        let t = slice_subrange(s, 1, n);
        assert(t@ =~= s@.skip(1));
        parse_digits(t, max)
    } else {
        parse_digits(s, max)
    }
}

/// Reads a 32-bit signed number.
pub fn parse_i32(s: &[char]) -> (r: Option<i32>)
    ensures
        match r {
            Some(v) => signed(s@, 0x8000_0000, 0x7fff_ffff) == Some(v as int),
            None => signed(s@, 0x8000_0000, 0x7fff_ffff) is None,
        },
{
    let n = s.len();
    if n > 0 && s[0] == '-' {
        let t = slice_subrange(s, 1, n);
        assert(t@ =~= s@.skip(1));
        match parse_digits(t, 0x8000_0000) {
            Some(v) => Some((-(v as i64)) as i32),
            None => None,
        }
    } else {
        match parse_unsigned(s, 0x7fff_ffff) {
            Some(v) => Some(v as i32),
            None => None,
        }
    }
}

pub fn is_blank(c: char) -> (r: bool)
    ensures
        r == is_space(c),
{
    let v: u32 = c as u32;
    (9 <= v && v <= 13) || v == 0x20 || v == 0x85 || v == 0xA0 || v == 0x1680 || (0x2000 <= v && v
        <= 0x200A) || v == 0x2028 || v == 0x2029 || v == 0x202F || v == 0x205F || v == 0x3000
}

/// The text without leading white space.
pub fn trim_start(s: &[char]) -> (r: &[char])
    ensures
        r@ == trim_left(s@),
{
    let n = s.len();
    let mut i: usize = 0;
    assert(s@.skip(0) =~= s@);
    while i < n && is_blank(s[i])
        invariant
            i <= n,
            n == s@.len(),
            trim_left(s@.skip(i as int)) == trim_left(s@),
        decreases n - i,
    {
        assert(s@.skip(i as int).skip(1) =~= s@.skip(i + 1));
        i += 1;
    }
    assert(s@.subrange(i as int, n as int) =~= s@.skip(i as int));
    slice_subrange(s, i, n)
}

/// The text without trailing white space.
pub fn trim_end(s: &[char]) -> (r: &[char])
    ensures
        r@ == trim_right(s@),
{
    let n = s.len();
    let mut i: usize = n;
    assert(s@.take(n as int) =~= s@);
    while i > 0 && is_blank(s[i - 1])
        invariant
            i <= n,
            n == s@.len(),
            trim_right(s@.take(i as int)) == trim_right(s@),
        decreases i,
    {
        assert(s@.take(i as int).drop_last() =~= s@.take(i - 1));
        i -= 1;
    }
    assert(s@.subrange(0, i as int) =~= s@.take(i as int));
    slice_subrange(s, 0, i)
}

/// The text without white space at either end.
pub fn trimmed(s: &[char]) -> (r: &[char])
    ensures
        r@ == trim(s@),
{
    trim_end(trim_start(s))
}

/// The first place of `c`.
pub fn position_of(s: &[char], c: char) -> (r: Option<usize>)
    ensures
        match r {
            Some(i) => find_char(s@, c) == Some(i as int) && i < s@.len(),
            None => find_char(s@, c) is None,
        },
{
    let n = s.len();
    let mut i: usize = 0;
    while i < n
        invariant
            i <= n,
            n == s@.len(),
            forall|j: int| 0 <= j < i ==> #[trigger] s@[j] != c,
        decreases n - i,
    {
        if s[i] == c {
            proof {
                lemma_find_char_is(s@, c, i as int);
            }
            return Some(i);
        }
        i += 1;
    }
    proof {
        lemma_find_char(s@, c);
    }
    None
}

fn stands_at(s: &[char], pat: &[char], at: usize) -> (r: bool)
    requires
        at <= s@.len(),
    ensures
        r == occurs(s@, pat@, at as int),
{
    let m = pat.len();
    if m > s.len() - at {
        return false;
    }
    let mut i: usize = 0;
    while i < m
        invariant
            i <= m,
            m == pat@.len(),
            at + m <= s@.len(),
            s@.len() <= usize::MAX,
            forall|j: int| 0 <= j < i ==> s@[at + j] == #[trigger] pat@[j],
        decreases m - i,
    {
        if s[at + i] != pat[i] {
            assert(s@.subrange(at as int, at + m)[i as int] != pat@[i as int]);
            return false;
        }
        i += 1;
    }
    assert(s@.subrange(at as int, at + m) =~= pat@);
    true
}

/// The first place of `pat`.
pub fn position_of_text(s: &[char], pat: &[char]) -> (r: Option<usize>)
    ensures
        match r {
            Some(i) => find(s@, pat@) == Some(i as int) && i + pat@.len() <= s@.len(),
            None => find(s@, pat@) is None,
        },
{
    let n = s.len();
    let mut i: usize = 0;
    loop
        invariant
            i <= n,
            n == s@.len(),
            find_from(s@, pat@, i as int) == find(s@, pat@),
        decreases n - i,
    {
        if stands_at(s, pat, i) {
            return Some(i);
        }
        if i == n {
            assert(find_from(s@, pat@, i + 1) is None);
            return None;
        }
        i += 1;
    }
}

/// `key` in double quotes.
pub fn quoted_key(key: &str) -> (r: Vec<char>)
    ensures
        r@ == quoted(key@),
{
    let mut r: Vec<char> = Vec::new();
    r.push('"');
    let mut k = chars_of(key);
    r.append(&mut k);
    r.push('"');
    assert(r@ =~= quoted(key@));
    r
}

/// Takes out what stands between the first opening and the first closing bracket.
pub fn bracketed(s: &[char]) -> (r: Result<&[char], ListError>)
    ensures
        match r {
            Ok(t) => brackets(s@) == Ok::<Seq<char>, ListError>(t@),
            Err(e) => brackets(s@) == Err::<Seq<char>, ListError>(e),
        },
{
    match (position_of(s, '['), position_of(s, ']')) {
        (None, _) => Err(ListError::NoOpen),
        (_, None) => Err(ListError::NoClose),
        (Some(a), Some(b)) => if a < b {
            Ok(slice_subrange(s, a + 1, b))
        } else {
            Err(ListError::Crossed)
        },
    }
}

/// The numbers up to `max` among the fields of `s`.
pub fn numbers(s: &[char], sep: char, max: u64) -> (r: Vec<u64>)
    ensures
        r@.map_values(|v: u64| v as nat) == numbers_in(fields(s@, sep), max as nat),
        forall|i: int| 0 <= i < r@.len() ==> #[trigger] r@[i] <= max,
{
    let mut out: Vec<u64> = Vec::new();
    let ghost f = |v: u64| v as nat;
    let ghost want = numbers_in(fields(s@, sep), max as nat);
    let mut rest = s;
    assert(out@.map_values(f) + numbers_in(fields(rest@, sep), max as nat) =~= want);
    loop
        invariant
            f == (|v: u64| v as nat),
            out@.map_values(f) + numbers_in(fields(rest@, sep), max as nat) == want,
            want == numbers_in(fields(s@, sep), max as nat),
            forall|i: int| 0 <= i < out@.len() ==> #[trigger] out@[i] <= max,
        decreases rest@.len(),
    {
        proof {
            lemma_find_char(rest@, sep);
        }
        let at = position_of(rest, sep);
        let n = rest.len();
        let end: usize = match at {
            Some(i) => i,
            None => n,
        };
        let field = slice_subrange(rest, 0, end);
        let ghost r0 = rest@;
        let ghost parts = fields(r0, sep);
        let ghost before = out@;
        assert(field@ =~= rest@.take(end as int));
        assert(rest@.take(n as int) =~= rest@);
        assert(parts[0] == field@);
        let value = parse_unsigned(trimmed(field), max);
        match value {
            Some(v) => {
                out.push(v);
                assert(out@.map_values(f) =~= before.map_values(f) + seq![v as nat]);
                proof {
                    lemma_number_bound(trim(field@), max as nat);
                }
            },
            None => {},
        }
        assert(out@.map_values(f) + numbers_in(parts.skip(1), max as nat) =~= want);
        match at {
            Some(i) => {
                rest = slice_subrange(rest, i + 1, n);
                assert(rest@ =~= r0.skip(i + 1));
                assert(parts.skip(1) =~= fields(rest@, sep));
            },
            None => {
                assert(parts.skip(1) =~= Seq::<Seq<char>>::empty());
                assert(out@.map_values(f) =~= want);
                return out;
            },
        }
    }
}

proof fn lemma_number_bound(s: Seq<char>, max: nat)
    ensures
        unsigned(s, max) matches Some(v) ==> v <= max,
{
}

/// The numbers of `v` as sizes.
pub fn sizes(v: &[u64]) -> (r: Vec<usize>)
    requires
        forall|i: int| 0 <= i < v@.len() ==> #[trigger] v@[i] <= usize::MAX,
    ensures
        r@ == v@.map_values(|x: u64| x as usize),
{
    let mut r: Vec<usize> = Vec::new();
    let mut i: usize = 0;
    while i < v.len()
        invariant
            i <= v@.len(),
            r@ == v@.take(i as int).map_values(|x: u64| x as usize),
        decreases v@.len() - i,
    {
        r.push(v[i] as usize);
        assert(r@ =~= v@.take(i + 1).map_values(|x: u64| x as usize));
        i += 1;
    }
    assert(v@.take(v@.len() as int) =~= v@);
    r
}

/// The numbers of `v` as token ids.
pub fn token_ids(v: &[u64]) -> (r: Vec<u32>)
    requires
        forall|i: int| 0 <= i < v@.len() ==> #[trigger] v@[i] <= u32::MAX,
    ensures
        r@ == v@.map_values(|x: u64| x as u32),
{
    let mut r: Vec<u32> = Vec::new();
    let mut i: usize = 0;
    while i < v.len()
        invariant
            i <= v@.len(),
            r@ == v@.take(i as int).map_values(|x: u64| x as u32),
        decreases v@.len() - i,
    {
        r.push(v[i] as u32);
        assert(r@ =~= v@.take(i + 1).map_values(|x: u64| x as u32));
        i += 1;
    }
    assert(v@.take(v@.len() as int) =~= v@);
    r
}

/// Token ids, one per line; lines that are no ids are passed over.
pub fn ids_per_line(s: &[char]) -> (r: Vec<u32>)
    ensures
        r@.map_values(|v: u32| v as nat) == numbers_in(fields(s@, '\n'), u32::MAX as nat),
{
    let v = numbers(s, '\n', u32::MAX as u64);
    let r = token_ids(v.as_slice());
    assert(r@.map_values(|v: u32| v as nat) =~= v@.map_values(|v: u64| v as nat));
    r
}

fn push_digit(s: &mut String, d: u64)
    requires
        d < 10,
    ensures
        final(s)@ == old(s)@.push(digit(d as nat)),
{
    proof {
        reveal_strlit("0");
        reveal_strlit("1");
        reveal_strlit("2");
        reveal_strlit("3");
        reveal_strlit("4");
        reveal_strlit("5");
        reveal_strlit("6");
        reveal_strlit("7");
        reveal_strlit("8");
        reveal_strlit("9");
    }
    let t: &str = if d == 0 {
        "0"
    } else if d == 1 {
        "1"
    } else if d == 2 {
        "2"
    } else if d == 3 {
        "3"
    } else if d == 4 {
        "4"
    } else if d == 5 {
        "5"
    } else if d == 6 {
        "6"
    } else if d == 7 {
        "7"
    } else if d == 8 {
        "8"
    } else {
        "9"
    };
    assert(t@ =~= seq![digit(d as nat)]);
    s.append(t);
    assert(s@ =~= old(s)@.push(digit(d as nat)));
}

/// Appends `n` in decimal.
pub fn push_decimal(s: &mut String, n: u64)
    ensures
        final(s)@ == old(s)@ + decimal(n as nat),
    decreases n,
{
    if n < 10 {
        push_digit(s, n);
        assert(s@ =~= old(s)@ + decimal(n as nat));
    } else {
        push_decimal(s, n / 10);
        push_digit(s, n % 10);
        assert(s@ =~= old(s)@ + decimal(n as nat));
    }
}

/// Appends `n` in decimal, with a sign when it is negative.
pub fn push_signed_decimal(s: &mut String, n: i64)
    ensures
        final(s)@ == old(s)@ + signed_decimal(n as int),
{
    if n < 0 {
        proof {
            reveal_strlit("-");
        }
        s.append("-");
        assert(s@ =~= old(s)@ + seq!['-']);
        let ghost s1 = s@;
        let m: u64 = (-(n as i128)) as u64;
        push_decimal(s, m);
        assert(s@ =~= old(s)@ + signed_decimal(n as int));
    } else {
        push_decimal(s, n as u64);
    }
}

/// `ids`, one per line.
pub open spec fn id_lines(ids: Seq<u32>) -> Seq<char>
    decreases ids.len(),
{
    if ids.len() == 0 {
        Seq::empty()
    } else {
        id_lines(ids.drop_last()) + decimal(ids.last() as nat) + seq!['\n']
    }
}

/// Writes `ids`, one per line.
pub fn lines_of_ids(ids: &[u32]) -> (r: String)
    ensures
        r@ == id_lines(ids@),
{
    let mut s: String = "".to_owned();
    proof {
        reveal_strlit("");
        reveal_strlit("\n");
    }
    let mut i: usize = 0;
    assert(s@ =~= id_lines(ids@.take(0)));
    while i < ids.len()
        invariant
            i <= ids@.len(),
            s@ == id_lines(ids@.take(i as int)),
            "\n"@ == seq!['\n'],
        decreases ids@.len() - i,
    {
        push_decimal(&mut s, ids[i] as u64);
        s.append("\n");
        assert(ids@.take(i + 1).drop_last() =~= ids@.take(i as int));
        i += 1;
    }
    assert(ids@.take(ids@.len() as int) =~= ids@);
    s
}

proof fn lemma_line_fields(t: Seq<char>, line: Seq<char>)
    requires
        t.len() == 0 || t.last() == '\n',
        forall|i: int| 0 <= i < line.len() ==> #[trigger] line[i] != '\n',
    ensures
        fields(t + line + seq!['\n'], '\n') == fields(t, '\n').drop_last() + seq![
            line,
            Seq::<char>::empty(),
        ],
        fields(t, '\n').len() > 0,
        fields(t, '\n').last() == Seq::<char>::empty(),
    decreases t.len(),
{
    let x = line + seq!['\n'];
    let whole = t + line + seq!['\n'];
    lemma_find_char(t, '\n');
    if t.len() == 0 {
        assert(whole =~= x);
        assert(x[line.len() as int] == '\n');
        lemma_find_char_is(x, '\n', line.len() as int);
        assert(x.take(line.len() as int) =~= line);
        assert(x.skip(line.len() as int + 1) =~= Seq::<char>::empty());
        assert(find_char(Seq::<char>::empty(), '\n') is None);
        assert(fields(Seq::<char>::empty(), '\n') =~= seq![Seq::<char>::empty()]);
        assert(t =~= Seq::<char>::empty());
        assert(fields(t, '\n').drop_last() =~= Seq::<Seq<char>>::empty());
    } else {
        assert(t[t.len() - 1] == '\n');
        let i = find_char(t, '\n')->0;
        let rest = t.skip(i + 1);
        assert forall|j: int| 0 <= j < i implies #[trigger] whole[j] != '\n' by {
            assert(whole[j] == t[j]);
        }
        lemma_find_char_is(whole, '\n', i);
        if rest.len() > 0 {
            assert(rest.last() == t.last());
        }
        lemma_line_fields(rest, line);
        assert(whole.skip(i + 1) =~= rest + line + seq!['\n']);
        assert(whole.take(i) =~= t.take(i));
        assert(fields(t, '\n') =~= seq![t.take(i)] + fields(rest, '\n'));
        assert(fields(t, '\n').drop_last() =~= seq![t.take(i)] + fields(rest, '\n').drop_last());
        assert(fields(whole, '\n') =~= fields(t, '\n').drop_last() + seq![
            line,
            Seq::<char>::empty(),
        ]);
    }
}

proof fn lemma_numbers_concat(a: Seq<Seq<char>>, b: Seq<Seq<char>>, max: nat)
    ensures
        numbers_in(a + b, max) == numbers_in(a, max) + numbers_in(b, max),
    decreases a.len(),
{
    if a.len() == 0 {
        assert(a + b =~= b);
        assert(numbers_in(a + b, max) =~= numbers_in(a, max) + numbers_in(b, max));
    } else {
        lemma_numbers_concat(a.skip(1), b, max);
        assert((a + b).skip(1) =~= a.skip(1) + b);
        assert((a + b)[0] == a[0]);
        assert(numbers_in(a + b, max) =~= numbers_in(a, max) + numbers_in(b, max));
    }
}

proof fn lemma_appended_id(t: Seq<char>, id: u32)
    requires
        t.len() == 0 || t.last() == '\n',
    ensures
        numbers_in(fields(t + decimal(id as nat) + seq!['\n'], '\n'), u32::MAX as nat)
            == numbers_in(fields(t, '\n'), u32::MAX as nat) + seq![id as nat],
{
    let line = decimal(id as nat);
    let max = u32::MAX as nat;
    lemma_decimal(id as nat);
    law_decimal_reads_back(id as nat, max);
    assert forall|i: int| 0 <= i < line.len() implies #[trigger] line[i] != '\n' by {
        assert(is_digit(line[i]));
    }
    lemma_line_fields(t, line);
    let fs = fields(t, '\n');
    let e = Seq::<char>::empty();
    assert(is_digit(line[0]));
    assert(is_digit(line[line.len() - 1]));
    assert(trim(line) == line);
    assert(trim(e) == e);
    reveal_with_fuel(numbers_in, 3);
    assert(unsigned(e, max) is None);
    assert(seq![line, e].skip(1) =~= seq![e]);
    assert(seq![e].skip(1) =~= Seq::<Seq<char>>::empty());
    assert(numbers_in(seq![e], max) =~= Seq::<nat>::empty());
    assert(numbers_in(seq![line, e], max) =~= seq![id as nat]);
    lemma_numbers_concat(fs.drop_last(), seq![line, e], max);
    lemma_numbers_concat(fs.drop_last(), seq![e], max);
    assert(fs.drop_last() + seq![e] =~= fs);
    assert(numbers_in(fs, max) =~= numbers_in(fs.drop_last(), max));
}

/// Ids that are appended to a file of ids, one per line, read back after those that stood there.
pub proof fn law_appended_ids_read_back(t: Seq<char>, ids: Seq<u32>)
    requires
        t.len() == 0 || t.last() == '\n',
    ensures
        numbers_in(fields(t + id_lines(ids), '\n'), u32::MAX as nat) == numbers_in(
            fields(t, '\n'),
            u32::MAX as nat,
        ) + ids.map_values(|v: u32| v as nat),
        ids.len() > 0 ==> id_lines(ids).last() == '\n',
    decreases ids.len(),
{
    let f = |v: u32| v as nat;
    if ids.len() == 0 {
        assert(t + id_lines(ids) =~= t);
        assert(ids.map_values(f) =~= Seq::<nat>::empty());
        assert(numbers_in(fields(t, '\n'), u32::MAX as nat) + ids.map_values(f) =~= numbers_in(
            fields(t, '\n'),
            u32::MAX as nat,
        ));
    } else {
        let d = ids.drop_last();
        law_appended_ids_read_back(t, d);
        let t1 = t + id_lines(d);
        if d.len() > 0 {
            assert(t1.last() == '\n');
        } else {
            assert(t1 =~= t);
        }
        lemma_appended_id(t1, ids.last());
        assert(t + id_lines(ids) =~= t1 + decimal(ids.last() as nat) + seq!['\n']);
        assert(ids.map_values(f) =~= d.map_values(f) + seq![ids.last() as nat]);
    }
}

/// The fields with `c` between them.
pub open spec fn joined(parts: Seq<Seq<char>>, c: char) -> Seq<char>
    decreases parts.len(),
{
    if parts.len() == 0 {
        Seq::empty()
    } else if parts.len() == 1 {
        parts[0]
    } else {
        parts[0] + seq![c] + joined(parts.skip(1), c)
    }
}

/// A text is its fields with the separator between them, and no field holds the separator.
pub proof fn law_fields_rejoin(s: Seq<char>, c: char)
    ensures
        fields(s, c).len() > 0,
        joined(fields(s, c), c) == s,
        forall|i: int, j: int|
            0 <= i < fields(s, c).len() && 0 <= j < fields(s, c)[i].len()
                ==> #[trigger] fields(s, c)[i][j] != c,
    decreases s.len(),
{
    lemma_find_char(s, c);
    let parts = fields(s, c);
    match find_char(s, c) {
        Some(k) => {
            let rest = s.skip(k + 1);
            law_fields_rejoin(rest, c);
            assert(parts.skip(1) =~= fields(rest, c));
            assert(s =~= s.take(k) + seq![c] + rest);
            assert forall|i: int, j: int|
                0 <= i < parts.len() && 0 <= j < parts[i].len() implies #[trigger] parts[i][j]
                != c by {
                if i > 0 {
                    assert(parts[i] == fields(rest, c)[i - 1]);
                    assert(fields(rest, c)[i - 1][j] != c);
                }
            }
        },
        None => {
            assert(parts =~= seq![s]);
        },
    }
}

/// Leading spaces are passed over, and nothing else.
pub proof fn law_trim_left(sp: Seq<char>, s: Seq<char>)
    requires
        forall|i: int| 0 <= i < sp.len() ==> is_space(#[trigger] sp[i]),
        s.len() > 0 ==> !is_space(s[0]),
    ensures
        trim_left(sp + s) == s,
    decreases sp.len(),
{
    if sp.len() == 0 {
        assert(sp + s =~= s);
    } else {
        let rest = sp.skip(1);
        assert forall|i: int| 0 <= i < rest.len() implies is_space(#[trigger] rest[i]) by {
            assert(rest[i] == sp[i + 1]);
        }
        law_trim_left(rest, s);
        assert((sp + s)[0] == sp[0]);
        assert((sp + s).skip(1) =~= rest + s);
    }
}

/// Trailing spaces are passed over, and nothing else.
pub proof fn law_trim_right(s: Seq<char>, sp: Seq<char>)
    requires
        forall|i: int| 0 <= i < sp.len() ==> is_space(#[trigger] sp[i]),
        s.len() > 0 ==> !is_space(s.last()),
    ensures
        trim_right(s + sp) == s,
    decreases sp.len(),
{
    if sp.len() == 0 {
        assert(s + sp =~= s);
    } else {
        let rest = sp.drop_last();
        assert forall|i: int| 0 <= i < rest.len() implies is_space(#[trigger] rest[i]) by {
            assert(rest[i] == sp[i]);
        }
        law_trim_right(s, rest);
        assert((s + sp).last() == sp[sp.len() - 1]);
        assert((s + sp).drop_last() =~= s + rest);
    }
}

/// What stands between brackets is found, whatever stands around them.
pub proof fn law_brackets(before: Seq<char>, body: Seq<char>, after: Seq<char>)
    requires
        forall|i: int| 0 <= i < before.len() ==> #[trigger] before[i] != '[' && before[i] != ']',
        forall|i: int| 0 <= i < body.len() ==> #[trigger] body[i] != ']',
    ensures
        brackets(before + seq!['['] + body + seq![']'] + after) == Ok::<Seq<char>, ListError>(body),
{
    let s = before + seq!['['] + body + seq![']'] + after;
    let a = before.len() as int;
    let b = a + 1 + body.len();
    assert forall|j: int| 0 <= j < a implies #[trigger] s[j] != '[' && s[j] != ']' by {
        assert(s[j] == before[j]);
    }
    assert forall|j: int| 0 <= j < b implies #[trigger] s[j] != ']' by {
        if j > a {
            assert(s[j] == body[j - a - 1]);
        } else if j < a {
            assert(s[j] == before[j]);
        }
    }
    lemma_find_char_is(s, '[', a);
    lemma_find_char_is(s, ']', b);
    assert(s.subrange(a + 1, b) =~= body);
}

} // verus!
