//! Character-level text helpers: whitespace splitting, ASCII case folding,
//! decimal formatting and parsing.

use vstd::prelude::*;
use vstd::std_specs::iter::IteratorSpec;

verus! {

/// Appends one character to a `String` (std `String::push`).
/// Trusted: the result is the old contents followed by `c`, as std documents.
#[verifier::external_body]
pub(crate) fn push_char(s: &mut String, c: char)
    ensures
        final(s)@ == old(s)@.push(c),
{
    s.push(c);
}

/// Unicode `White_Space` property, as used by `char::is_whitespace`.
pub open spec fn is_ws(c: char) -> bool {
    let u = c as u32;
    ||| 0x09 <= u <= 0x0D
    ||| u == 0x20
    ||| u == 0x85
    ||| u == 0xA0
    ||| u == 0x1680
    ||| 0x2000 <= u <= 0x200A
    ||| u == 0x2028
    ||| u == 0x2029
    ||| u == 0x202F
    ||| u == 0x205F
    ||| u == 0x3000
}

pub fn is_whitespace(c: char) -> (r: bool)
    ensures
        r == is_ws(c),
{
    let u = c as u32;
    (0x09 <= u && u <= 0x0D) || u == 0x20 || u == 0x85 || u == 0xA0 || u == 0x1680
        || (0x2000 <= u && u <= 0x200A) || u == 0x2028 || u == 0x2029 || u == 0x202F
        || u == 0x205F || u == 0x3000
}

/// The characters of a string slice, collected into a vector.
pub fn to_chars(s: &str) -> (v: Vec<char>)
    ensures
        v@ == s@,
{
    let mut v: Vec<char> = Vec::new();
    let mut it = s.chars();
    for c in iter: it
        invariant
            v@ == iter.seq().take(iter.index() as int),
            iter.seq() == s@,
    {
        v.push(c);
    }
    v
}

/// Builds a `String` from a run of characters `v[from..to]`.
pub fn string_from_range(v: &Vec<char>, from: usize, to: usize) -> (s: String)
    requires
        from <= to <= v@.len(),
    ensures
        s@ == v@.subrange(from as int, to as int),
{
    let mut s = String::new();
    let mut i = from;
    while i < to
        invariant
            from <= i <= to <= v@.len(),
            s@ == v@.subrange(from as int, i as int),
        decreases to - i,
    {
        push_char(&mut s, v[i]);
        assert(v@.subrange(from as int, i + 1) == v@.subrange(from as int, i as int).push(v@[i as int]));
        i = i + 1;
    }
    s
}

/// `str::split_whitespace`: the maximal runs of non-whitespace characters, in order.
pub open spec fn split_ws(s: Seq<char>) -> Seq<Seq<char>>
    decreases s.len(),
{
    if s.len() == 0 {
        seq![]
    } else {
        let rest = split_ws(s.drop_last());
        let c = s.last();
        if is_ws(c) {
            rest
        } else if s.len() >= 2 && !is_ws(s[s.len() - 2]) {
            rest.update(rest.len() - 1, rest.last().push(c))
        } else {
            rest.push(seq![c])
        }
    }
}

pub open spec fn strings_view(v: Seq<String>) -> Seq<Seq<char>> {
    v.map_values(|w: String| w@)
}

proof fn lemma_split_ws_nonempty(s: Seq<char>)
    requires
        s.len() > 0,
        !is_ws(s.last()),
    ensures
        split_ws(s).len() > 0,
    decreases s.len(),
{
    reveal_with_fuel(split_ws, 2);
    let rest = split_ws(s.drop_last());
    if s.len() >= 2 && !is_ws(s[s.len() - 2]) {
        assert(s.drop_last().last() == s[s.len() - 2]);
        lemma_split_ws_nonempty(s.drop_last());
    }
}

/// `str::split_whitespace` collected into owned words.
pub fn split_whitespace(s: &str) -> (r: Vec<String>)
    ensures
        strings_view(r@) == split_ws(s@),
{
    let v = to_chars(s);
    let n = v.len();
    let mut words: Vec<String> = Vec::new();
    let mut cur = String::new();
    let mut in_word = false;
    let mut i: usize = 0;
    while i < n
        invariant
            n == v@.len(),
            v@ == s@,
            i <= n,
            in_word <==> (i > 0 && !is_ws(v@[i - 1])),
            !in_word ==> strings_view(words@) == split_ws(v@.take(i as int)),
            in_word ==> strings_view(words@).push(cur@) == split_ws(v@.take(i as int)),
        decreases n - i,
    {
        let c = v[i];
        let ghost pre = v@.take(i as int);
        let ghost post = v@.take(i + 1);
        assert(post.drop_last() == pre);
        assert(post.last() == c);
        if is_whitespace(c) {
            if in_word {
                let w = cur;
                cur = String::new();
                words.push(w);
                assert(strings_view(words@) == strings_view(words@.drop_last()).push(w@));
                assert(words@.drop_last() =~= words@.take(words@.len() - 1));
            }
            in_word = false;
        } else {
            if in_word {
                assert(post.len() >= 2 && post[post.len() - 2] == v@[i - 1]);
                let ghost before = split_ws(pre);
                push_char(&mut cur, c);
                assert(strings_view(words@).push(cur@) =~= before.update(before.len() - 1, before.last().push(c)));
            } else {
                cur = String::new();
                push_char(&mut cur, c);
                assert(cur@ =~= seq![c]);
            }
            in_word = true;
        }
        i = i + 1;
    }
    if in_word {
        let w = cur;
        words.push(w);
        assert(strings_view(words@) =~= strings_view(words@.drop_last()).push(w@));
    }
    assert(v@.take(n as int) =~= v@);
    words
}

pub open spec fn ascii_lower(c: char) -> char {
    if 'A' <= c && c <= 'Z' {
        ((c as u32) + 32) as char
    } else {
        c
    }
}

pub open spec fn ascii_lower_seq(s: Seq<char>) -> Seq<char> {
    s.map_values(|c: char| ascii_lower(c))
}

pub fn char_to_ascii_lowercase(c: char) -> (r: char)
    ensures
        r == ascii_lower(c),
{
    if 'A' <= c && c <= 'Z' {
        let u = (c as u32) + 32;
        assert(0x61 <= u <= 0x7A);
        char_from_ascii(u as u8)
    } else {
        c
    }
}

/// The character with the given ASCII code.
pub fn char_from_ascii(b: u8) -> (c: char)
    requires
        b < 128,
    ensures
        c as u32 == b as u32,
{
    b as char
}

/// `str::to_ascii_lowercase`.
pub fn to_ascii_lowercase(s: &str) -> (r: String)
    ensures
        r@ == ascii_lower_seq(s@),
{
    let v = to_chars(s);
    let mut r = String::new();
    let mut i: usize = 0;
    while i < v.len()
        invariant
            v@ == s@,
            i <= v@.len(),
            r@ == ascii_lower_seq(v@.take(i as int)),
        decreases v@.len() - i,
    {
        let c = char_to_ascii_lowercase(v[i]);
        push_char(&mut r, c);
        assert(ascii_lower_seq(v@.take(i + 1)) =~= ascii_lower_seq(v@.take(i as int)).push(c));
        i = i + 1;
    }
    assert(v@.take(v@.len() as int) =~= v@);
    r
}

/// `str::eq_ignore_ascii_case`.
pub fn eq_ignore_ascii_case(a: &str, b: &str) -> (r: bool)
    ensures
        r == (ascii_lower_seq(a@) == ascii_lower_seq(b@)),
{
    let va = to_chars(a);
    let vb = to_chars(b);
    if va.len() != vb.len() {
        assert(ascii_lower_seq(a@).len() != ascii_lower_seq(b@).len());
        return false;
    }
    let mut i: usize = 0;
    while i < va.len()
        invariant
            va@ == a@,
            vb@ == b@,
            va@.len() == vb@.len(),
            i <= va@.len(),
            forall|j: int| 0 <= j < i ==> ascii_lower(#[trigger] va@[j]) == ascii_lower(vb@[j]),
        decreases va@.len() - i,
    {
        if char_to_ascii_lowercase(va[i]) != char_to_ascii_lowercase(vb[i]) {
            assert(ascii_lower_seq(a@)[i as int] != ascii_lower_seq(b@)[i as int]);
            return false;
        }
        i = i + 1;
    }
    assert(ascii_lower_seq(a@) =~= ascii_lower_seq(b@));
    true
}

/// Leading characters equal to `c` removed (`str::trim_start_matches(c)`).
pub open spec fn trim_start_char(s: Seq<char>, c: char) -> Seq<char>
    decreases s.len(),
{
    if s.len() > 0 && s[0] == c {
        trim_start_char(s.drop_first(), c)
    } else {
        s
    }
}

/// Index of the first character of `s` at or after `i` that differs from `c`.
proof fn lemma_trim_start_char_skip(s: Seq<char>, c: char, i: int)
    requires
        0 <= i <= s.len(),
        forall|j: int| 0 <= j < i ==> s[j] == c,
    ensures
        trim_start_char(s, c) == trim_start_char(s.subrange(i, s.len() as int), c),
    decreases i,
{
    if i > 0 {
        assert(s.len() > 0 && s[0] == c);
        let t = s.drop_first();
        lemma_trim_start_char_skip(t, c, i - 1);
        assert(t.subrange(i - 1, t.len() as int) =~= s.subrange(i, s.len() as int));
    } else {
        assert(s.subrange(0, s.len() as int) =~= s);
    }
}

/// `str::trim_start_matches(c)` for a single character `c`.
pub fn trim_start_matches_char(s: &str, c: char) -> (r: String)
    ensures
        r@ == trim_start_char(s@, c),
{
    let v = to_chars(s);
    let mut i: usize = 0;
    while i < v.len() && v[i] == c
        invariant
            v@ == s@,
            i <= v@.len(),
            forall|j: int| 0 <= j < i ==> v@[j] == c,
        decreases v@.len() - i,
    {
        i = i + 1;
    }
    proof {
        lemma_trim_start_char_skip(v@, c, i as int);
        let t = v@.subrange(i as int, v@.len() as int);
        if t.len() > 0 {
            assert(t[0] == v@[i as int]);
        }
    }
    string_from_range(&v, i, v.len())
}

/// One leading `c` removed if present (`s.strip_prefix(c).unwrap_or(s)`).
pub open spec fn strip_one_char(s: Seq<char>, c: char) -> Seq<char> {
    if s.len() > 0 && s[0] == c {
        s.drop_first()
    } else {
        s
    }
}

pub fn strip_one_char_prefix(s: &str, c: char) -> (r: String)
    ensures
        r@ == strip_one_char(s@, c),
{
    let v = to_chars(s);
    if v.len() > 0 && v[0] == c {
        string_from_range(&v, 1, v.len())
    } else {
        let r = string_from_range(&v, 0, v.len());
        assert(v@.subrange(0, v@.len() as int) =~= v@);
        r
    }
}

/// Unicode whitespace removed from both ends (`str::trim`).
pub open spec fn trim_ws_start(s: Seq<char>) -> Seq<char>
    decreases s.len(),
{
    if s.len() > 0 && is_ws(s[0]) {
        trim_ws_start(s.drop_first())
    } else {
        s
    }
}

pub open spec fn trim_ws_end(s: Seq<char>) -> Seq<char>
    decreases s.len(),
{
    if s.len() > 0 && is_ws(s.last()) {
        trim_ws_end(s.drop_last())
    } else {
        s
    }
}

pub open spec fn trim_ws(s: Seq<char>) -> Seq<char> {
    trim_ws_end(trim_ws_start(s))
}

proof fn lemma_trim_ws_start_skip(s: Seq<char>, i: int)
    requires
        0 <= i <= s.len(),
        forall|j: int| 0 <= j < i ==> is_ws(s[j]),
    ensures
        trim_ws_start(s) == trim_ws_start(s.subrange(i, s.len() as int)),
    decreases i,
{
    if i > 0 {
        let t = s.drop_first();
        lemma_trim_ws_start_skip(t, i - 1);
        assert(t.subrange(i - 1, t.len() as int) =~= s.subrange(i, s.len() as int));
    } else {
        assert(s.subrange(0, s.len() as int) =~= s);
    }
}

proof fn lemma_trim_ws_end_skip(s: Seq<char>, k: int)
    requires
        0 <= k <= s.len(),
        forall|j: int| k <= j < s.len() ==> is_ws(s[j]),
    ensures
        trim_ws_end(s) == trim_ws_end(s.subrange(0, k)),
    decreases s.len() - k,
{
    if k < s.len() {
        let t = s.drop_last();
        lemma_trim_ws_end_skip(t, k);
        assert(t.subrange(0, k) =~= s.subrange(0, k));
    } else {
        assert(s.subrange(0, k) =~= s);
    }
}

/// `str::trim`.
pub fn trim(s: &str) -> (r: String)
    ensures
        r@ == trim_ws(s@),
{
    let v = to_chars(s);
    let mut i: usize = 0;
    while i < v.len() && is_whitespace(v[i])
        invariant
            v@ == s@,
            i <= v@.len(),
            forall|j: int| 0 <= j < i ==> is_ws(v@[j]),
        decreases v@.len() - i,
    {
        i = i + 1;
    }
    let mut k: usize = v.len();
    while k > i && is_whitespace(v[k - 1])
        invariant
            v@ == s@,
            i <= k <= v@.len(),
            forall|j: int| k <= j < v@.len() ==> is_ws(v@[j]),
        decreases k,
    {
        k = k - 1;
    }
    proof {
        lemma_trim_ws_start_skip(v@, i as int);
        let t = v@.subrange(i as int, v@.len() as int);
        if t.len() > 0 {
            assert(t[0] == v@[i as int]);
        }
        assert(trim_ws_start(t) == t);
        lemma_trim_ws_end_skip(t, k - i);
        let u = t.subrange(0, k - i);
        assert(u =~= v@.subrange(i as int, k as int));
        if u.len() > 0 {
            assert(u.last() == v@[k - 1]);
        }
    }
    string_from_range(&v, i, k)
}

/// Whether `p` is a prefix of `s`.
pub open spec fn has_prefix(s: Seq<char>, p: Seq<char>) -> bool {
    p.len() <= s.len() && s.subrange(0, p.len() as int) == p
}

/// `str::starts_with` for a string pattern.
pub fn starts_with(s: &str, p: &str) -> (r: bool)
    ensures
        r == has_prefix(s@, p@),
{
    let vs = to_chars(s);
    let vp = to_chars(p);
    if vp.len() > vs.len() {
        return false;
    }
    let mut i: usize = 0;
    while i < vp.len()
        invariant
            vs@ == s@,
            vp@ == p@,
            vp@.len() <= vs@.len(),
            i <= vp@.len(),
            forall|j: int| 0 <= j < i ==> vs@[j] == vp@[j],
        decreases vp@.len() - i,
    {
        if vs[i] != vp[i] {
            assert(s@.subrange(0, p@.len() as int)[i as int] != p@[i as int]);
            return false;
        }
        i = i + 1;
    }
    assert(s@.subrange(0, p@.len() as int) =~= p@);
    true
}

/// The decimal digit character for `d < 10`.
pub open spec fn digit_char(d: int) -> char {
    ((d + 48) as u32) as char
}

/// Decimal representation of a natural number, without leading zeros.
pub open spec fn dec(n: nat) -> Seq<char>
    decreases n,
{
    if n < 10 {
        seq![digit_char(n as int)]
    } else {
        dec(n / 10).push(digit_char((n % 10) as int))
    }
}

/// Decimal representation of an integer, with a leading `-` when negative.
pub open spec fn dec_int(n: int) -> Seq<char> {
    if n < 0 {
        seq!['-'].add(dec((-n) as nat))
    } else {
        dec(n as nat)
    }
}

fn digit(d: u128) -> (c: char)
    requires
        d < 10,
    ensures
        c == digit_char(d as int),
{
    char_from_ascii((d + 48) as u8)
}

/// `u128::to_string`.
pub fn u128_to_string(n: u128) -> (s: String)
    ensures
        s@ == dec(n as nat),
    decreases n,
{
    if n < 10 {
        let mut s = String::new();
        push_char(&mut s, digit(n));
        assert(s@ =~= seq![digit_char(n as int)]);
        s
    } else {
        let mut s = u128_to_string(n / 10);
        push_char(&mut s, digit(n % 10));
        s
    }
}

/// `u64::to_string`.
pub fn u64_to_string(n: u64) -> (s: String)
    ensures
        s@ == dec(n as nat),
{
    u128_to_string(n as u128)
}

/// `i64::to_string`.
pub fn i64_to_string(n: i64) -> (s: String)
    ensures
        s@ == dec_int(n as int),
{
    if n < 0 {
        let m: u64 = if n == i64::MIN { 9223372036854775808u64 } else { (-n) as u64 };
        let tail = u64_to_string(m);
        let mut s = String::new();
        push_char(&mut s, '-');
        s.append(tail.as_str());
        assert(s@ =~= seq!['-'].add(dec((-n) as nat)));
        s
    } else {
        u64_to_string(n as u64)
    }
}

/// `usize::to_string`.
pub fn usize_to_string(n: usize) -> (s: String)
    ensures
        s@ == dec(n as nat),
{
    u64_to_string(n as u64)
}

pub open spec fn is_digit(c: char) -> bool {
    '0' <= c && c <= '9'
}

pub open spec fn all_digits(s: Seq<char>) -> bool {
    forall|i: int| 0 <= i < s.len() ==> is_digit(#[trigger] s[i])
}

/// The value of a run of decimal digits.
pub open spec fn digits_value(s: Seq<char>) -> nat
    decreases s.len(),
{
    if s.len() == 0 {
        0
    } else {
        digits_value(s.drop_last()) * 10 + ((s.last() as u32) - 48) as nat
    }
}

/// What Rust's integer `FromStr` accepts: an optional sign (`-` only when
/// `allow_minus`), then at least one ASCII digit and nothing else.
/// Gives the signed value; range checks are left to the caller.
pub open spec fn parse_int_spec(s: Seq<char>, allow_minus: bool) -> Option<int> {
    if s.len() > 0 && (s[0] == '+' || (allow_minus && s[0] == '-')) {
        let body = s.drop_first();
        if body.len() > 0 && all_digits(body) {
            if s[0] == '-' {
                Some(-(digits_value(body) as int))
            } else {
                Some(digits_value(body) as int)
            }
        } else {
            None
        }
    } else if s.len() > 0 && all_digits(s) {
        Some(digits_value(s) as int)
    } else {
        None
    }
}

/// Result of parsing into an integer type with bounds `[lo, hi]`.
pub open spec fn parse_in_range(s: Seq<char>, allow_minus: bool, lo: int, hi: int) -> Option<int> {
    match parse_int_spec(s, allow_minus) {
        Some(v) => if lo <= v <= hi { Some(v) } else { None },
        None => None,
    }
}

proof fn lemma_digits_value_grows(s: Seq<char>, i: int)
    requires
        0 <= i <= s.len(),
        all_digits(s),
    ensures
        digits_value(s.take(i)) <= digits_value(s),
    decreases s.len() - i,
{
    if i < s.len() {
        lemma_digits_value_grows(s, i + 1);
        assert(s.take(i + 1).drop_last() =~= s.take(i));
    } else {
        assert(s.take(i) =~= s);
    }
}

/// Parses a sign-less magnitude `v[from..]` of digits, giving `None` when a
/// character is not a digit or the value exceeds `limit`.
fn parse_magnitude(v: &Vec<char>, from: usize, limit: u64) -> (r: Option<u64>)
    requires
        from <= v@.len(),
    ensures
        ({
            let body = v@.subrange(from as int, v@.len() as int);
            match r {
                Some(x) => all_digits(body) && x == digits_value(body) && x <= limit,
                None => !all_digits(body) || digits_value(body) > limit,
            }
        }),
{
    let ghost body = v@.subrange(from as int, v@.len() as int);
    let mut acc: u64 = 0;
    let mut i = from;
    while i < v.len()
        invariant
            from <= i <= v@.len(),
            body == v@.subrange(from as int, v@.len() as int),
            all_digits(body.take(i - from)),
            acc == digits_value(body.take(i - from)),
            acc <= limit,
        decreases v@.len() - i,
    {
        let c = v[i];
        let ghost pre = body.take(i - from);
        let ghost post = body.take(i - from + 1);
        assert(post.drop_last() =~= pre);
        assert(post.last() == c);
        if !('0' <= c && c <= '9') {
            assert(body[i - from] == c);
            return None;
        }
        let d = (c as u32 - 48) as u64;
        if d > limit || acc > (limit - d) / 10 {
            proof {
                assert(acc * 10 + d > limit) by (nonlinear_arith)
                    requires d > limit || (d <= limit && acc > (limit - d) / 10), acc >= 0;
                assert(all_digits(post));
                if all_digits(body) {
                    lemma_digits_value_grows(body, i - from + 1);
                }
            }
            return None;
        }
        proof {
            assert(acc * 10 + d <= limit) by (nonlinear_arith)
                requires acc <= (limit - d) / 10, d <= limit;
            assert(all_digits(post));
        }
        acc = acc * 10 + d;
        i = i + 1;
    }
    assert(body.take(i - from) =~= body);
    Some(acc)
}

/// Signed or unsigned parse with an optional leading sign; the magnitude is
/// bounded by `pos_limit` (no sign or `+`) or `neg_limit` (`-`).
fn parse_signed(s: &str, allow_minus: bool, pos_limit: u64, neg_limit: u64) -> (r: Option<(bool, u64)>)
    ensures
        match r {
            Some((neg, m)) => {
                &&& parse_int_spec(s@, allow_minus) == Some(if neg { -(m as int) } else { m as int })
                &&& (neg ==> m <= neg_limit)
                &&& (!neg ==> m <= pos_limit)
            },
            None => match parse_int_spec(s@, allow_minus) {
                Some(v) => v > pos_limit || v < -(neg_limit as int),
                None => true,
            },
        },
{
    let v = to_chars(s);
    if v.len() == 0 {
        return None;
    }
    let neg = allow_minus && v[0] == '-';
    let signed = v[0] == '+' || neg;
    let from: usize = if signed { 1 } else { 0 };
    if signed && v.len() == 1 {
        return None;
    }
    let limit = if neg { neg_limit } else { pos_limit };
    let m = parse_magnitude(&v, from, limit);
    proof {
        if signed {
            assert(v@.subrange(1, v@.len() as int) =~= s@.drop_first());
        } else {
            assert(v@.subrange(0, v@.len() as int) =~= s@);
        }
    }
    match m {
        Some(x) => Some((neg, x)),
        None => None,
    }
}

/// `str::parse::<usize>()`, as an `Option`.
pub fn parse_usize(s: &str) -> (r: Option<usize>)
    ensures
        match r {
            Some(x) => parse_in_range(s@, false, 0, usize::MAX as int) == Some(x as int),
            None => parse_in_range(s@, false, 0, usize::MAX as int) is None,
        },
{
    match parse_signed(s, false, usize::MAX as u64, 0) {
        Some((_, m)) => Some(m as usize),
        None => None,
    }
}

/// `str::parse::<u32>()`, as an `Option`.
pub fn parse_u32(s: &str) -> (r: Option<u32>)
    ensures
        match r {
            Some(x) => parse_in_range(s@, false, 0, u32::MAX as int) == Some(x as int),
            None => parse_in_range(s@, false, 0, u32::MAX as int) is None,
        },
{
    match parse_signed(s, false, u32::MAX as u64, 0) {
        Some((_, m)) => Some(m as u32),
        None => None,
    }
}

/// `str::parse::<i32>()`, as an `Option`.
pub fn parse_i32(s: &str) -> (r: Option<i32>)
    ensures
        match r {
            Some(x) => parse_in_range(s@, true, i32::MIN as int, i32::MAX as int) == Some(x as int),
            None => parse_in_range(s@, true, i32::MIN as int, i32::MAX as int) is None,
        },
{
    match parse_signed(s, true, 2147483647, 2147483648) {
        Some((neg, m)) => {
            if neg {
                Some((0i64 - m as i64) as i32)
            } else {
                Some(m as i32)
            }
        },
        None => None,
    }
}

/// `str::parse::<i64>()`, as an `Option`.
pub fn parse_i64(s: &str) -> (r: Option<i64>)
    ensures
        match r {
            Some(x) => parse_in_range(s@, true, i64::MIN as int, i64::MAX as int) == Some(x as int),
            None => parse_in_range(s@, true, i64::MIN as int, i64::MAX as int) is None,
        },
{
    match parse_signed(s, true, 9223372036854775807, 9223372036854775808) {
        Some((neg, m)) => {
            if neg {
                if m == 9223372036854775808 {
                    Some(i64::MIN)
                } else {
                    Some(0i64 - (m as i64))
                }
            } else {
                Some(m as i64)
            }
        },
        None => None,
    }
}

/// Exact equality of two string slices, compared character by character.
pub fn str_seq_eq(a: &str, b: &str) -> (r: bool)
    ensures
        r == (a@ == b@),
{
    let va = to_chars(a);
    let vb = to_chars(b);
    vec_char_eq(&va, &vb)
}

/// Equality of two character vectors.
pub fn vec_char_eq(va: &Vec<char>, vb: &Vec<char>) -> (r: bool)
    ensures
        r == (va@ == vb@),
{
    if va.len() != vb.len() {
        return false;
    }
    let mut i: usize = 0;
    while i < va.len()
        invariant
            va@.len() == vb@.len(),
            i <= va@.len(),
            forall|j: int| 0 <= j < i ==> va@[j] == vb@[j],
        decreases va@.len() - i,
    {
        if va[i] != vb[i] {
            return false;
        }
        i = i + 1;
    }
    assert(va@ =~= vb@);
    true
}

/// `a` followed by `b`.
pub fn cat2(a: &str, b: &str) -> (r: String)
    ensures
        r@ == a@ + b@,
{
    let mut r = a.to_owned();
    r.append(b);
    r
}

/// `a`, `b` and `c` in a row.
pub fn cat3(a: &str, b: &str, c: &str) -> (r: String)
    ensures
        r@ == a@ + b@ + c@,
{
    let mut r = a.to_owned();
    r.append(b);
    r.append(c);
    r
}

/// Five pieces in a row.
pub fn cat5(a: &str, b: &str, c: &str, d: &str, e: &str) -> (r: String)
    ensures
        r@ == a@ + b@ + c@ + d@ + e@,
{
    let mut r = a.to_owned();
    r.append(b);
    r.append(c);
    r.append(d);
    r.append(e);
    r
}

/// Seven pieces in a row.
pub fn cat7(a: &str, b: &str, c: &str, d: &str, e: &str, f: &str, g: &str) -> (r: String)
    ensures
        r@ == a@ + b@ + c@ + d@ + e@ + f@ + g@,
{
    let mut r = a.to_owned();
    r.append(b);
    r.append(c);
    r.append(d);
    r.append(e);
    r.append(f);
    r.append(g);
    r
}

/// The strings joined with `sep` between neighbours.
pub open spec fn join_spec(items: Seq<Seq<char>>, sep: Seq<char>) -> Seq<char>
    decreases items.len(),
{
    if items.len() == 0 {
        seq![]
    } else if items.len() == 1 {
        items[0]
    } else {
        join_spec(items.drop_last(), sep) + sep + items.last()
    }
}

/// `[String]::join(sep)`.
pub fn join(items: &Vec<String>, sep: &str) -> (r: String)
    ensures
        r@ == join_spec(strings_view(items@), sep@),
{
    let mut r = String::new();
    let mut i: usize = 0;
    while i < items.len()
        invariant
            i <= items@.len(),
            r@ == join_spec(strings_view(items@.take(i as int)), sep@),
        decreases items@.len() - i,
    {
        let ghost prev = strings_view(items@.take(i as int));
        let ghost next = strings_view(items@.take(i + 1));
        assert(next.drop_last() =~= prev);
        assert(next.last() == items@[i as int]@);
        if i > 0 {
            r.append(sep);
        }
        r.append(items[i].as_str());
        i = i + 1;
    }
    assert(items@.take(items@.len() as int) =~= items@);
    r
}

/// How `format!("{:?}", list)` prints a list of strings.
pub uninterp spec fn debug_list(items: Seq<Seq<char>>) -> Seq<char>;

/// std's `Debug` formatting of a list of strings. Trusted: the text is a
/// function of the strings alone; its form (brackets, quotes, escapes) is not
/// stated.
#[verifier::external_body]
pub(crate) fn debug_strings(items: &Vec<String>) -> (r: String)
    ensures
        r@ == debug_list(strings_view(items@)),
{
    format!("{:?}", items)
}

/// The text after the first `c` in `s`, when `s` holds a `c`.
pub open spec fn after_first(s: Seq<char>, c: char) -> Option<Seq<char>>
    decreases s.len(),
{
    if s.len() == 0 {
        None
    } else if s[0] == c {
        Some(s.skip(1))
    } else {
        after_first(s.skip(1), c)
    }
}

/// The text after the first `c`, as the second half of `str::split_once(c)`.
pub fn text_after_first(s: &str, c: char) -> (r: Option<String>)
    ensures
        match r {
            Some(x) => after_first(s@, c) == Some(x@),
            None => after_first(s@, c) is None,
        },
{
    let v = to_chars(s);
    let mut i: usize = 0;
    assert(s@.skip(0) =~= s@);
    while i < v.len()
        invariant
            v@ == s@,
            i <= v@.len(),
            after_first(s@, c) == after_first(s@.skip(i as int), c),
        decreases v@.len() - i,
    {
        assert(s@.skip(i as int)[0] == v@[i as int]);
        assert(s@.skip(i as int).skip(1) =~= s@.skip(i + 1));
        if v[i] == c {
            return Some(string_from_range(&v, i + 1, v.len()));
        }
        i = i + 1;
    }
    None
}

/// ASCII whitespace, as `u8::is_ascii_whitespace` (space, tab, line feed,
/// form feed, carriage return).
pub open spec fn is_ascii_ws(c: char) -> bool {
    c == ' ' || c == '\t' || c == '\n' || c == '\x0C' || c == '\r'
}

/// `str::split_ascii_whitespace`: the maximal runs of characters that are
/// not ASCII whitespace, in order.
pub open spec fn split_ascii_ws(s: Seq<char>) -> Seq<Seq<char>>
    decreases s.len(),
{
    if s.len() == 0 {
        seq![]
    } else {
        let rest = split_ascii_ws(s.drop_last());
        let c = s.last();
        if is_ascii_ws(c) {
            rest
        } else if s.len() >= 2 && !is_ascii_ws(s[s.len() - 2]) {
            rest.update(rest.len() - 1, rest.last().push(c))
        } else {
            rest.push(seq![c])
        }
    }
}

/// `str::split_ascii_whitespace` collected into owned words.
pub fn split_ascii_whitespace(s: &str) -> (r: Vec<String>)
    ensures
        strings_view(r@) == split_ascii_ws(s@),
{
    let v = to_chars(s);
    let n = v.len();
    let mut words: Vec<String> = Vec::new();
    let mut cur = String::new();
    let mut in_word = false;
    let mut i: usize = 0;
    while i < n
        invariant
            n == v@.len(),
            v@ == s@,
            i <= n,
            in_word <==> (i > 0 && !is_ascii_ws(v@[i - 1])),
            !in_word ==> strings_view(words@) == split_ascii_ws(v@.take(i as int)),
            in_word ==> strings_view(words@).push(cur@) == split_ascii_ws(v@.take(i as int)),
        decreases n - i,
    {
        let c = v[i];
        let ghost pre = v@.take(i as int);
        let ghost post = v@.take(i + 1);
        assert(post.drop_last() == pre);
        assert(post.last() == c);
        if c == ' ' || c == '\t' || c == '\n' || c == '\x0C' || c == '\r' {
            if in_word {
                let w = cur;
                cur = String::new();
                words.push(w);
                assert(strings_view(words@) == strings_view(words@.drop_last()).push(w@));
                assert(words@.drop_last() =~= words@.take(words@.len() - 1));
            }
            in_word = false;
        } else {
            if in_word {
                assert(post.len() >= 2 && post[post.len() - 2] == v@[i - 1]);
                let ghost before = split_ascii_ws(pre);
                push_char(&mut cur, c);
                assert(strings_view(words@).push(cur@) =~= before.update(before.len() - 1, before.last().push(c)));
            } else {
                cur = String::new();
                push_char(&mut cur, c);
                assert(cur@ =~= seq![c]);
            }
            in_word = true;
        }
        i = i + 1;
    }
    if in_word {
        let w = cur;
        words.push(w);
        assert(strings_view(words@) =~= strings_view(words@.drop_last()).push(w@));
    }
    assert(v@.take(n as int) =~= v@);
    words
}

/// `s` with every occurrence of the non-empty `p` replaced by `r`, matched
/// left to right without overlap (`str::replace`).
pub open spec fn replace_all(s: Seq<char>, p: Seq<char>, r: Seq<char>) -> Seq<char>
    decreases s.len(),
{
    if p.len() == 0 || s.len() < p.len() {
        s
    } else if s.take(p.len() as int) == p {
        r + replace_all(s.skip(p.len() as int), p, r)
    } else {
        seq![s[0]] + replace_all(s.skip(1), p, r)
    }
}

/// `str::replace` for a non-empty pattern.
pub fn replace_str(s: &str, p: &str, r: &str) -> (out: String)
    requires
        p@.len() > 0,
    ensures
        out@ == replace_all(s@, p@, r@),
{
    let v = to_chars(s);
    let vp = to_chars(p);
    let n = v.len();
    let m = vp.len();
    let mut out = String::new();
    let mut i: usize = 0;
    assert(v@.skip(0) =~= v@);
    while i < n
        invariant
            v@ == s@,
            vp@ == p@,
            n == v@.len(),
            m == p@.len(),
            m > 0,
            i <= n,
            out@ + replace_all(v@.skip(i as int), p@, r@) == replace_all(s@, p@, r@),
        decreases n - i,
    {
        let ghost rest = v@.skip(i as int);
        let mut matched = false;
        if m <= n - i {
            let mut j: usize = 0;
            let mut same = true;
            while j < m
                invariant
                    v@ == s@,
                    vp@ == p@,
                    i + m <= n == v@.len(),
                    m == p@.len(),
                    j <= m,
                    same == forall|k: int| 0 <= k < j ==> v@[i + k] == vp@[k],
                decreases m - j,
            {
                if v[i + j] != vp[j] {
                    same = false;
                }
                j = j + 1;
            }
            matched = same;
            if same {
                assert(rest.take(m as int) =~= p@);
            } else {
                assert(rest.take(m as int) != p@) by {
                    let k = choose|k: int| 0 <= k < m && !(v@[i + k] == vp@[k]);
                    assert(rest.take(m as int)[k] == v@[i + k]);
                }
            }
        }
        if matched {
            assert(rest.skip(m as int) =~= v@.skip(i + m));
            assert(out@ + r@ + replace_all(v@.skip(i + m), p@, r@) == replace_all(s@, p@, r@)) by {
                assert(out@ + (r@ + replace_all(v@.skip(i + m), p@, r@)) =~= out@ + r@ + replace_all(v@.skip(i + m), p@, r@));
            }
            out.append(r);
            i = i + m;
        } else {
            assert(rest.skip(1) =~= v@.skip(i + 1));
            assert(rest[0] == v@[i as int]);
            assert(out@ + seq![v@[i as int]] + replace_all(v@.skip(i + 1), p@, r@) == replace_all(s@, p@, r@)) by {
                assert(out@ + (seq![v@[i as int]] + replace_all(v@.skip(i + 1), p@, r@)) =~= out@ + seq![v@[i as int]] + replace_all(v@.skip(i + 1), p@, r@));
            }
            push_char(&mut out, v[i]);
            i = i + 1;
        }
    }
    assert(v@.skip(n as int) =~= Seq::<char>::empty());
    assert(out@ + Seq::<char>::empty() =~= out@);
    out
}

} // verus!
