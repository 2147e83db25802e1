//! Character-level text helpers: decimal rendering, whitespace, slicing by characters.

use vstd::prelude::*;

verus! {

/// The character for a decimal digit.
pub open spec fn digit_char(d: nat) -> char {
    if d == 0 { '0' }
    else if d == 1 { '1' }
    else if d == 2 { '2' }
    else if d == 3 { '3' }
    else if d == 4 { '4' }
    else if d == 5 { '5' }
    else if d == 6 { '6' }
    else if d == 7 { '7' }
    else if d == 8 { '8' }
    else { '9' }
}

/// Decimal digits of a natural number, most significant first, without leading zeros.
pub open spec fn nat_text(n: nat) -> Seq<char>
    decreases n,
{
    if n < 10 {
        seq![digit_char(n)]
    } else {
        nat_text(n / 10).push(digit_char(n % 10))
    }
}

/// Decimal text of an integer, with a leading `-` when it is negative.
pub open spec fn int_text(n: int) -> Seq<char> {
    if n < 0 {
        seq!['-'] + nat_text((-n) as nat)
    } else {
        nat_text(n as nat)
    }
}

/// Rust's `char::is_whitespace`: the characters with the Unicode `White_Space` property.
pub open spec fn is_space(c: char) -> bool {
    let v = c as u32;
    (0x09 <= v && v <= 0x0D) || v == 0x20 || v == 0x85 || v == 0xA0 || v == 0x1680
        || (0x2000 <= v && v <= 0x200A) || v == 0x2028 || v == 0x2029 || v == 0x202F
        || v == 0x205F || v == 0x3000
}

/// An ASCII decimal digit.
pub open spec fn is_digit(c: char) -> bool {
    '0' <= c && c <= '9'
}

/// The value of a digit character.
pub open spec fn digit_value(c: char) -> nat {
    ((c as u32) - 48) as nat
}

/// The value of a run of decimal digits, most significant first (zero when empty).
pub open spec fn digits_value(ds: Seq<char>) -> nat
    decreases ds.len(),
{
    if ds.len() == 0 {
        0
    } else {
        digits_value(ds.drop_last()) * 10 + digit_value(ds.last())
    }
}

/// `char::is_whitespace`.
pub fn char_is_space(c: char) -> (b: bool)
    ensures
        b == is_space(c),
{
    let v = c as u32;
    (0x09 <= v && v <= 0x0D) || v == 0x20 || v == 0x85 || v == 0xA0 || v == 0x1680
        || (0x2000 <= v && v <= 0x200A) || v == 0x2028 || v == 0x2029 || v == 0x202F
        || v == 0x205F || v == 0x3000
}

/// `char::is_ascii_digit`.
pub fn char_is_digit(c: char) -> (b: bool)
    ensures
        b == is_digit(c),
{
    '0' <= c && c <= '9'
}

/// Appends one character to a string.
/// Specifies `String::push`, which appends the given char to the end of the string.
#[verifier::external_body]
pub(crate) fn push_char(s: &mut String, c: char)
    ensures
        final(s)@ == old(s)@.push(c),
{
    s.push(c);
}

fn digit_to_char(d: u64) -> (c: char)
    requires
        d < 10,
    ensures
        c == digit_char(d as nat),
{
    if d == 0 { '0' }
    else if d == 1 { '1' }
    else if d == 2 { '2' }
    else if d == 3 { '3' }
    else if d == 4 { '4' }
    else if d == 5 { '5' }
    else if d == 6 { '6' }
    else if d == 7 { '7' }
    else if d == 8 { '8' }
    else { '9' }
}

/// Appends the decimal digits of `n`.
pub fn push_u64_text(out: &mut String, n: u64)
    ensures
        final(out)@ == old(out)@ + nat_text(n as nat),
    decreases n,
{
    if n >= 10 {
        push_u64_text(out, n / 10);
    }
    push_char(out, digit_to_char(n % 10));
    proof {
        if n >= 10 {
            assert(nat_text(n as nat) == nat_text((n / 10) as nat).push(digit_char((n % 10) as nat)));
        }
    }
}

/// Appends the decimal text of `n` (with a `-` sign when negative).
pub fn push_i64_text(out: &mut String, n: i64)
    ensures
        final(out)@ == old(out)@ + int_text(n as int),
{
    if n < 0 {
        push_char(out, '-');
        let m: u64 = (0i128 - n as i128) as u64;
        push_u64_text(out, m);
    } else {
        push_u64_text(out, n as u64);
    }
}

/// The decimal text of an `i64`, as its `Display` writes it.
pub fn i64_text(n: i64) -> (s: String)
    ensures
        s@ == int_text(n as int),
{
    let mut s = String::new();
    push_i64_text(&mut s, n);
    s
}

broadcast use vstd::string::group_string_axioms;

/// The characters of a string slice, in order.
pub fn chars_of(s: &str) -> (v: Vec<char>)
    ensures
        v@ == s@,
{
    let mut v: Vec<char> = Vec::new();
    for c in it: s.chars()
        invariant
            v@.len() == it.index(),
            forall|i: int| 0 <= i < v@.len() ==> v@[i] == it.seq()[i],
    {
        v.push(c);
    }
    assert(v@ =~= s@);
    v
}

/// `s` cut to its first `max` characters followed by `...`, when it is longer than `max`.
pub open spec fn truncated(s: Seq<char>, max: nat) -> Seq<char> {
    if s.len() <= max {
        s
    } else {
        s.take(max as int) + seq!['.', '.', '.']
    }
}

/// The length of `s` without its trailing whitespace.
pub open spec fn trimmed_end(s: Seq<char>) -> int
    decreases s.len(),
{
    if s.len() > 0 && is_space(s.last()) {
        trimmed_end(s.drop_last())
    } else {
        s.len() as int
    }
}

/// The number of leading whitespace characters of `s`.
pub open spec fn leading_spaces(s: Seq<char>) -> int
    decreases s.len(),
{
    if s.len() > 0 && is_space(s[0]) {
        1 + leading_spaces(s.drop_first())
    } else {
        0
    }
}

/// `str::trim`: `s` without leading and trailing whitespace.
pub open spec fn trimmed(s: Seq<char>) -> Seq<char> {
    let t = s.take(trimmed_end(s));
    t.skip(leading_spaces(t))
}

/// Every character of `s` is an ASCII digit.
pub open spec fn all_digits(s: Seq<char>) -> bool {
    forall|i: int| 0 <= i < s.len() ==> is_digit(#[trigger] s[i])
}

/// `str::parse::<i64>`: an optional `+` or `-`, then one or more ASCII digits, in range.
pub open spec fn parse_i64(s: Seq<char>) -> Option<i64> {
    let neg = s.len() > 0 && s[0] == '-';
    let signed = s.len() > 0 && (s[0] == '-' || s[0] == '+');
    let ds = if signed { s.drop_first() } else { s };
    if ds.len() == 0 || !all_digits(ds) {
        None
    } else if neg {
        if digits_value(ds) <= 0x8000_0000_0000_0000 {
            Some((0 - digits_value(ds)) as i64)
        } else {
            None
        }
    } else if digits_value(ds) <= i64::MAX {
        Some(digits_value(ds) as i64)
    } else {
        None
    }
}

/// The index of the first `c` in `s` at or after `i`, or `s.len()` when there is none.
pub open spec fn find_char(s: Seq<char>, c: char, i: int) -> int
    decreases s.len() - i,
{
    if i < 0 || i >= s.len() {
        s.len() as int
    } else if s[i] == c {
        i
    } else {
        find_char(s, c, i + 1)
    }
}

/// The index found lies between the start and the end.
pub proof fn lemma_find_char_bounds(s: Seq<char>, c: char, i: int)
    requires
        0 <= i,
    ensures
        i <= find_char(s, c, i) <= s.len() || (i > s.len() && find_char(s, c, i) == s.len()),
        find_char(s, c, i) < s.len() ==> s[find_char(s, c, i)] == c,
        forall|k: int| i <= k < find_char(s, c, i) ==> s[k] != c,
    decreases s.len() - i,
{
    if i < s.len() && s[i] != c {
        lemma_find_char_bounds(s, c, i + 1);
    }
}

/// `str::split(c)`: the pieces of `s` between occurrences of `c` (one piece when there is none).
pub open spec fn split_on(s: Seq<char>, c: char) -> Seq<Seq<char>>
    decreases s.len(),
{
    let i = find_char(s, c, 0);
    proof {
        lemma_find_char_bounds(s, c, 0);
    }
    if i >= s.len() {
        seq![s]
    } else {
        seq![s.take(i)] + split_on(s.skip(i + 1), c)
    }
}

/// A line without the `\r` of a `\r\n` ending.
pub open spec fn strip_cr(s: Seq<char>) -> Seq<char> {
    if s.len() > 0 && s.last() == '\r' {
        s.drop_last()
    } else {
        s
    }
}

/// `str::lines`: pieces ended by `\n` or `\r\n`; a final line ending adds no empty line.
pub open spec fn lines_of(s: Seq<char>) -> Seq<Seq<char>>
    decreases s.len(),
{
    if s.len() == 0 {
        seq![]
    } else {
        let i = find_char(s, '\n', 0);
        proof {
            lemma_find_char_bounds(s, '\n', 0);
        }
        if i >= s.len() {
            seq![s]
        } else {
            seq![strip_cr(s.take(i))] + lines_of(s.skip(i + 1))
        }
    }
}

/// `parts` joined by `sep`.
pub open spec fn joined(parts: Seq<Seq<char>>, sep: Seq<char>) -> Seq<char>
    decreases parts.len(),
{
    if parts.len() == 0 {
        seq![]
    } else if parts.len() == 1 {
        parts[0]
    } else {
        joined(parts.drop_last(), sep) + sep + parts.last()
    }
}

/// `s` holds `needle` at some position (always true of an empty needle).
pub open spec fn has_infix(s: Seq<char>, needle: Seq<char>) -> bool {
    exists|i: int| 0 <= i <= s.len() - needle.len() && #[trigger] s.subrange(i, i + needle.len()) == needle
}

pub proof fn lemma_digits_value_grows(ds: Seq<char>)
    requires
        ds.len() > 0,
    ensures
        digits_value(ds) >= digits_value(ds.drop_last()),
{
}

/// The value of the digits `s[from..to]`, or `None` when it exceeds `cap`.
pub fn digits_within(s: &Vec<char>, from: usize, to: usize, cap: u64) -> (r: Option<u64>)
    requires
        from <= to <= s@.len(),
        9 <= cap <= 9223372036854775808u64,
        forall|k: int| from <= k < to ==> is_digit(#[trigger] s@[k]),
    ensures
        match r {
            Some(v) => digits_value(s@.subrange(from as int, to as int)) <= cap
                && v as int == digits_value(s@.subrange(from as int, to as int)),
            None => digits_value(s@.subrange(from as int, to as int)) > cap,
        },
{
    let mut acc: u64 = 0;
    let mut big = false;
    let mut k = from;
    assert(s@.subrange(from as int, from as int) =~= Seq::<char>::empty());
    while k < to
        invariant
            from <= k <= to <= s@.len(),
            forall|k: int| from <= k < to ==> is_digit(#[trigger] s@[k]),
            9 <= cap <= 9223372036854775808u64,
            !big ==> acc as int == digits_value(s@.subrange(from as int, k as int)) && acc <= cap,
            big ==> digits_value(s@.subrange(from as int, k as int)) >  cap,
        decreases to - k,
    {
        let ghost prev = s@.subrange(from as int, k as int);
        let ghost next = s@.subrange(from as int, k + 1);
        assert(next.drop_last() =~= prev);
        assert(next.last() == s@[k as int]);
        assert(is_digit(s@[k as int]));
        let d = (s[k] as u32 - 48) as u64;
        assert(d as nat == digit_value(s@[k as int]));
        if !big {
            if acc <= (cap - d) / 10 {
                assert(acc * 10 + d <= cap) by (nonlinear_arith)
                    requires
                        acc <= (cap - d) / 10,
                        d <= 9,
                ;
                acc = acc * 10 + d;
            } else {
                assert(acc * 10 + d > cap) by (nonlinear_arith)
                    requires
                        acc > (cap - d) / 10,
                        d <= 9,
                ;
                big = true;
            }
        } else {
            proof { lemma_digits_value_grows(next); }
        }
        k = k + 1;
    }
    if big {
        None
    } else {
        Some(acc)
    }
}

/// Appends `s[from..to]`.
pub fn push_chars(out: &mut String, s: &Vec<char>, from: usize, to: usize)
    requires
        from <= to <= s@.len(),
    ensures
        final(out)@ == old(out)@ + s@.subrange(from as int, to as int),
{
    let mut k = from;
    while k < to
        invariant
            from <= k <= to <= s@.len(),
            out@ == old(out)@ + s@.subrange(from as int, k as int),
        decreases to - k,
    {
        push_char(out, s[k]);
        assert(s@.subrange(from as int, k + 1) =~= s@.subrange(from as int, k as int).push(s@[k as int]));
        k = k + 1;
    }
}

/// `find_char` from `i` stops at the first `c`.
pub proof fn lemma_find_char_is(s: Seq<char>, c: char, i: int, j: int)
    requires
        0 <= i <= j <= s.len(),
        forall|k: int| i <= k < j ==> s[k] != c,
        j < s.len() ==> s[j] == c,
    ensures
        find_char(s, c, i) == j,
    decreases j - i,
{
    if i < j {
        lemma_find_char_is(s, c, i + 1, j);
    }
}

/// The bounds of `trimmed(s[from..to])` inside `s`.
pub fn trim_range(s: &Vec<char>, from: usize, to: usize) -> (r: (usize, usize))
    requires
        from <= to <= s@.len(),
    ensures
        from <= r.0 <= r.1 <= to,
        s@.subrange(r.0 as int, r.1 as int) == trimmed(s@.subrange(from as int, to as int)),
{
    let ghost whole = s@.subrange(from as int, to as int);
    let mut b = to;
    while b > from && char_is_space(s[b - 1])
        invariant
            from <= b <= to <= s@.len(),
            trimmed_end(whole) == trimmed_end(s@.subrange(from as int, b as int)),
        decreases b,
    {
        assert(s@.subrange(from as int, b as int).drop_last() =~= s@.subrange(from as int, b - 1));
        b = b - 1;
    }
    assert(trimmed_end(s@.subrange(from as int, b as int)) == b - from);
    assert(whole.take(b - from) =~= s@.subrange(from as int, b as int));
    let ghost t = s@.subrange(from as int, b as int);
    let mut a = from;
    while a < b && char_is_space(s[a])
        invariant
            from <= a <= b <= to <= s@.len(),
            t == s@.subrange(from as int, b as int),
            leading_spaces(t) == (a - from) + leading_spaces(s@.subrange(a as int, b as int)),
        decreases b - a,
    {
        assert(s@.subrange(a as int, b as int).drop_first() =~= s@.subrange(a + 1, b as int));
        a = a + 1;
    }
    assert(t.skip(a - from) =~= s@.subrange(a as int, b as int));
    (a, b)
}

/// `str::parse::<i64>` on `s[from..to]`.
pub fn parse_i64_range(s: &Vec<char>, from: usize, to: usize) -> (r: Option<i64>)
    requires
        from <= to <= s@.len(),
    ensures
        r == parse_i64(s@.subrange(from as int, to as int)),
{
    let ghost t = s@.subrange(from as int, to as int);
    if from == to {
        return None;
    }
    let neg = s[from] == '-';
    let signed = neg || s[from] == '+';
    let start = if signed { from + 1 } else { from };
    assert(t[0] == s@[from as int]);
    let ghost ds = if signed { t.drop_first() } else { t };
    assert(ds =~= s@.subrange(start as int, to as int));
    if start == to {
        return None;
    }
    let mut k = start;
    #[verifier::loop_isolation(false)]
    while k < to
        invariant
            start <= k <= to <= s@.len(),
            ds == s@.subrange(start as int, to as int),
            forall|m: int| start <= m < k ==> is_digit(#[trigger] s@[m]),
        decreases to - k,
    {
        if !char_is_digit(s[k]) {
            assert(ds[k - start] == s@[k as int]);
            assert(!is_digit(ds[k - start]));
            return None;
        }
        k = k + 1;
    }
    assert(all_digits(ds)) by {
        assert forall|i: int| 0 <= i < ds.len() implies is_digit(#[trigger] ds[i]) by {
            assert(ds[i] == s@[start + i]);
        }
    }
    if neg {
        match digits_within(s, start, to, 9223372036854775808u64) {
            Some(v) => {
                if v == 9223372036854775808u64 {
                    Some(i64::MIN)
                } else {
                    Some(0 - (v as i64))
                }
            },
            None => None,
        }
    } else {
        match digits_within(s, start, to, 9223372036854775807u64) {
            Some(v) => Some(v as i64),
            None => None,
        }
    }
}

/// The integers among the trimmed pieces, in order (`filter_map` of `trim().parse().ok()`).
pub open spec fn parsed_ids(pieces: Seq<Seq<char>>) -> Seq<i64>
    decreases pieces.len(),
{
    if pieces.len() == 0 {
        seq![]
    } else {
        let head = match parse_i64(trimmed(pieces[0])) {
            Some(v) => seq![v],
            None => seq![],
        };
        head + parsed_ids(pieces.drop_first())
    }
}

/// Reads a comma-separated list of integers, skipping pieces that are not integers
/// (`split(',')`, then `trim().parse::<i64>().ok()` on each piece).
pub fn parse_id_list(text: &str) -> (ids: Vec<i64>)
    ensures
        ids@ == parsed_ids(split_on(text@, ',')),
{
    let cs = chars_of(text);
    let n = cs.len();
    let mut out: Vec<i64> = Vec::new();
    let mut start: usize = 0;
    let mut i: usize = 0;
    assert(text@.skip(0) =~= text@);
    while i < n
        invariant
            n == cs@.len(),
            cs@ == text@,
            start <= i <= n,
            forall|k: int| start <= k < i ==> cs@[k] != ',',
            parsed_ids(split_on(text@, ',')) == out@ + parsed_ids(split_on(text@.skip(start as int), ',')),
        decreases n - i,
    {
        if cs[i] == ',' {
            let ghost rest = text@.skip(start as int);
            proof {
                lemma_find_char_is(rest, ',', 0, i - start);
                assert(rest.take(i - start) =~= cs@.subrange(start as int, i as int));
                assert(rest.skip(i - start + 1) =~= text@.skip(i + 1));
                assert(split_on(rest, ',') == seq![rest.take(i - start)] + split_on(rest.skip(i - start + 1), ','));
            }
            let (a, b) = trim_range(&cs, start, i);
            let piece = parse_i64_range(&cs, a, b);
            let ghost before = out@;
            match piece {
                Some(v) => out.push(v),
                None => {},
            }
            proof {
                let pieces = split_on(rest, ',');
                assert(pieces.drop_first() == split_on(text@.skip(i + 1), ','));
                assert(out@ + parsed_ids(pieces.drop_first()) =~= before + parsed_ids(pieces));
            }
            start = i + 1;
        }
        i = i + 1;
    }
    let ghost rest = text@.skip(start as int);
    proof {
        lemma_find_char_is(rest, ',', 0, n - start);
        assert(rest =~= cs@.subrange(start as int, n as int));
        assert(split_on(rest, ',') == seq![rest]);
    }
    let (a, b) = trim_range(&cs, start, n);
    let ghost before = out@;
    match parse_i64_range(&cs, a, b) {
        Some(v) => out.push(v),
        None => {},
    }
    proof {
        let pieces = split_on(rest, ',');
        assert(pieces.drop_first() =~= Seq::<Seq<char>>::empty());
        assert(parsed_ids(pieces.drop_first()) =~= Seq::<i64>::empty());
        assert(out@ =~= before + parsed_ids(pieces));
    }
    out
}

/// The texts of a list of strings.
pub open spec fn texts(v: Seq<String>) -> Seq<Seq<char>> {
    v.map_values(|x: String| x@)
}

/// The text `s[from..to]` as a string.
pub fn string_of(s: &Vec<char>, from: usize, to: usize) -> (r: String)
    requires
        from <= to <= s@.len(),
    ensures
        r@ == s@.subrange(from as int, to as int),
{
    let mut r = String::new();
    push_chars(&mut r, s, from, to);
    r
}

/// `str::lines`: the lines of a text, without their `\n` or `\r\n` endings.
pub fn text_lines(text: &str) -> (lines: Vec<String>)
    ensures
        texts(lines@) == lines_of(text@),
{
    let cs = chars_of(text);
    let n = cs.len();
    let mut out: Vec<String> = Vec::new();
    let mut start: usize = 0;
    let mut i: usize = 0;
    assert(text@.skip(0) =~= text@);
    while i < n
        invariant
            n == cs@.len(),
            cs@ == text@,
            start <= i <= n,
            forall|k: int| start <= k < i ==> cs@[k] != '\n',
            lines_of(text@) == texts(out@) + lines_of(text@.skip(start as int)),
        decreases n - i,
    {
        if cs[i] == '\n' {
            let ghost rest = text@.skip(start as int);
            proof {
                lemma_find_char_is(rest, '\n', 0, i - start);
                assert(rest.take(i - start) =~= cs@.subrange(start as int, i as int));
                assert(rest.skip(i - start + 1) =~= text@.skip(i + 1));
            }
            let end = if i > start && cs[i - 1] == '\r' { i - 1 } else { i };
            let line = string_of(&cs, start, end);
            let ghost before = out@;
            out.push(line);
            proof {
                assert(line@ == strip_cr(rest.take(i - start)));
                assert(texts(out@) =~= texts(before).push(line@));
                assert(lines_of(rest) == seq![strip_cr(rest.take(i - start))] + lines_of(text@.skip(i + 1)));
                assert(texts(out@) + lines_of(text@.skip(i + 1)) =~= texts(before) + lines_of(rest));
            }
            start = i + 1;
        }
        i = i + 1;
    }
    if start < n {
        let ghost rest = text@.skip(start as int);
        proof {
            lemma_find_char_is(rest, '\n', 0, n - start);
            assert(rest =~= cs@.subrange(start as int, n as int));
        }
        let line = string_of(&cs, start, n);
        let ghost before = out@;
        out.push(line);
        assert(texts(out@) =~= texts(before).push(line@));
        assert(texts(out@) =~= texts(before) + lines_of(rest));
    } else {
        assert(text@.skip(start as int) =~= Seq::<char>::empty());
        assert(texts(out@) =~= texts(out@) + lines_of(text@.skip(start as int)));
    }
    out
}

/// Joins the parts with a separator (`join`).
pub fn join_texts(parts: &Vec<String>, sep: &str) -> (r: String)
    ensures
        r@ == joined(texts(parts@), sep@),
{
    let mut r = String::new();
    let n = parts.len();
    for i in 0..n
        invariant
            n == parts@.len(),
            r@ == joined(texts(parts@).take(i as int), sep@),
    {
        let ghost before = r@;
        if i > 0 {
            r.append(sep);
        }
        r.append(parts[i].as_str());
        proof {
            let t = texts(parts@).take(i + 1);
            assert(t.drop_last() =~= texts(parts@).take(i as int));
            assert(t.last() == parts@[i as int]@);
            if i == 0 {
                assert(r@ =~= joined(t, sep@));
            }
        }
    }
    assert(texts(parts@).take(n as int) =~= texts(parts@));
    r
}

/// Whether two texts are equal.
pub fn text_eq(a: &str, b: &str) -> (r: bool)
    ensures
        r == (a@ == b@),
{
    let x = chars_of(a);
    let y = chars_of(b);
    if x.len() != y.len() {
        return false;
    }
    let n = x.len();
    for i in 0..n
        invariant
            n == x@.len() == y@.len(),
            x@ == a@,
            y@ == b@,
            forall|k: int| 0 <= k < i ==> x@[k] == y@[k],
    {
        if x[i] != y[i] {
            assert(a@[i as int] != b@[i as int]);
            return false;
        }
    }
    assert(x@ =~= y@);
    true
}

/// `str::contains`: whether `needle` occurs in `s`.
pub fn text_contains(s: &str, needle: &str) -> (r: bool)
    ensures
        r == has_infix(s@, needle@),
{
    let x = chars_of(s);
    let y = chars_of(needle);
    let n = x.len();
    let m = y.len();
    if m > n {
        return false;
    }
    let mut i: usize = 0;
    while i <= n - m
        invariant
            n == x@.len(),
            m == y@.len(),
            m <= n,
            x@ == s@,
            y@ == needle@,
            i <= n - m + 1,
            forall|j: int| 0 <= j < i ==> #[trigger] x@.subrange(j, j + m) != y@,
        decreases n - m + 1 - i,
    {
        let mut k: usize = 0;
        while k < m && x[i + k] == y[k]
            invariant
                k <= m,
                i + m <= n,
                n == x@.len(),
                m == y@.len(),
                forall|t: int| 0 <= t < k ==> x@[i + t] == y@[t],
            decreases m - k,
        {
            k = k + 1;
        }
        if k == m {
            assert(x@.subrange(i as int, i + m) =~= y@);
            return true;
        }
        assert(x@.subrange(i as int, i + m)[k as int] != y@[k as int]);
        i = i + 1;
    }
    assert forall|j: int| 0 <= j <= s@.len() - needle@.len() implies #[trigger] s@.subrange(j, j + needle@.len()) != needle@ by {
        assert(j < i);
    }
    false
}

} // verus!
