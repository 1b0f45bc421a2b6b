//! Small operations on text: comparison, conversion between strings and
//! characters, and decimal numerals.

use vstd::prelude::*;

verus! {

/// Whether two strings hold the same characters.
pub fn str_eq(a: &str, b: &str) -> (r: bool)
    ensures
        r == (a@ == b@),
{
    let x = chars_of(a);
    let y = chars_of(b);
    if x.len() != y.len() {
        return false;
    }
    let mut i: usize = 0;
    while i < x.len()
        invariant
            x@ == a@,
            y@ == b@,
            x@.len() == y@.len(),
            i <= x@.len(),
            forall|k: int| 0 <= k < i ==> x@[k] == y@[k],
        decreases x@.len() - i,
    {
        if x[i] != y[i] {
            return false;
        }
        i = i + 1;
    }
    assert(x@ =~= y@);
    true
}

/// The characters of a string, in order.
pub fn chars_of(s: &str) -> (r: Vec<char>)
    ensures
        r@ == s@,
{
    broadcast use vstd::string::group_string_axioms;
    let mut out: Vec<char> = Vec::new();
    for c in it: s.chars()
        invariant
            out@ == it.seq().take(it.index() as int),
    {
        out.push(c);
    }
    out
}

/// The string of these characters (`String::from_iter`).
#[verifier::external_body]
pub(crate) fn string_of(cs: &Vec<char>) -> (r: String)
    ensures
        r@ == cs@,
{
    cs.iter().collect()
}

/// Appends the characters of `s` to `out`.
pub fn push_str(out: &mut Vec<char>, s: &str)
    ensures
        final(out)@ == old(out)@ + s@,
{
    let cs = chars_of(s);
    let mut i: usize = 0;
    while i < cs.len()
        invariant
            i <= cs@.len(),
            cs@ == s@,
            out@ == old(out)@ + cs@.take(i as int),
        decreases cs@.len() - i,
    {
        out.push(cs[i]);
        i = i + 1;
        assert(out@ =~= old(out)@ + cs@.take(i as int));
    }
    assert(cs@.take(cs@.len() as int) =~= cs@);
}

/// The decimal digit character of `d` (for `d` below 10).
pub open spec fn digit_char(d: int) -> char {
    (('0' as int) + d) as char
}

/// The decimal numeral of `n`, without leading zeros ("0" for zero).
pub open spec fn decimal(n: nat) -> Seq<char>
    decreases n,
{
    if n < 10 {
        seq![digit_char(n as int)]
    } else {
        decimal(n / 10).push(digit_char((n % 10) as int))
    }
}

/// Appends the decimal numeral of `n` to `out`.
pub fn push_decimal(out: &mut Vec<char>, n: u64)
    ensures
        final(out)@ == old(out)@ + decimal(n as nat),
    decreases n,
{
    if n >= 10 {
        push_decimal(out, n / 10);
    }
    let d = (n % 10) as u32;
    let c = if d == 0 { '0' } else if d == 1 { '1' } else if d == 2 { '2' } else if d == 3 { '3' } else if d == 4 {
        '4'
    } else if d == 5 { '5' } else if d == 6 { '6' } else if d == 7 { '7' } else if d == 8 { '8' } else { '9' };
    assert(c == digit_char((n % 10) as int));
    let ghost before = out@;
    out.push(c);
    proof {
        if n >= 10 {
            assert(out@ =~= old(out)@ + decimal(n as nat));
        } else {
            assert(out@ =~= old(out)@ + decimal(n as nat));
        }
    }
}

/// `needle` occurs in `hay` at position `i`.
pub open spec fn occurs_at(hay: Seq<char>, needle: Seq<char>, i: int) -> bool {
    0 <= i && i + needle.len() <= hay.len() && hay.subrange(i, i + needle.len()) == needle
}

/// `needle` occurs somewhere in `hay` (`str::contains`).
pub open spec fn has_substring(hay: Seq<char>, needle: Seq<char>) -> bool {
    exists|i: int| occurs_at(hay, needle, i)
}

/// Whether `needle` occurs in `hay`.
pub fn contains_text(hay: &str, needle: &str) -> (r: bool)
    ensures
        r == has_substring(hay@, needle@),
{
    let h = chars_of(hay);
    let n = chars_of(needle);
    if n.len() > h.len() {
        assert forall|i: int| !occurs_at(hay@, needle@, i) by {}
        return false;
    }
    let mut i: usize = 0;
    while i <= h.len() - n.len()
        invariant
            h@ == hay@,
            n@ == needle@,
            n@.len() <= h@.len(),
            i <= h@.len() - n@.len() + 1,
            forall|k: int| 0 <= k < i ==> !occurs_at(hay@, needle@, k),
        decreases h@.len() - n@.len() + 1 - i,
    {
        let mut j: usize = 0;
        let mut same = true;
        let hl = h.len();
        while j < n.len()
            invariant
                hl == h@.len(),
                h@ == hay@,
                n@ == needle@,
                i + n@.len() <= h@.len(),
                j <= n@.len(),
                same == (forall|m: int| 0 <= m < j ==> h@[i + m] == n@[m]),
            decreases n@.len() - j,
        {
            assert(i + j < hl);
            if h[i + j] != n[j] {
                same = false;
            }
            j = j + 1;
        }
        if same {
            assert(hay@.subrange(i as int, i + needle@.len()) =~= needle@);
            assert(occurs_at(hay@, needle@, i as int));
            return true;
        }
        proof {
            assert(!occurs_at(hay@, needle@, i as int)) by {
                if occurs_at(hay@, needle@, i as int) {
                    assert forall|m: int| 0 <= m < n@.len() implies h@[i + m] == n@[m] by {
                        assert(hay@.subrange(i as int, i + needle@.len())[m] == needle@[m]);
                    }
                }
            }
        }
        i = i + 1;
    }
    assert forall|k: int| !occurs_at(hay@, needle@, k) by {
        if 0 <= k && k + needle@.len() <= hay@.len() {
            assert(k < i);
        }
    }
    false
}

/// The lowercase hexadecimal digit of `d` (for `d` below 16).
pub open spec fn hex_char(d: int) -> char {
    if d < 10 {
        (('0' as int) + d) as char
    } else {
        (('a' as int) + d - 10) as char
    }
}

/// Hex digit `k` (0 = most significant) of a 128-bit number.
pub open spec fn nibble(x: u128, k: int) -> int {
    ((x >> ((4 * (31 - k)) as u128)) & 0xf) as int
}

/// The hyphenated UUID text of `x`: 32 lowercase hex digits in groups of
/// 8, 4, 4, 4 and 12.
pub open spec fn uuid_text(x: u128) -> Seq<char> {
    Seq::new(
        36,
        |i: int|
            if i == 8 || i == 13 || i == 18 || i == 23 {
                '-'
            } else {
                hex_char(nibble(x, if i < 8 { i } else if i < 13 { i - 1 } else if i < 18 { i - 2 } else if i < 23 { i - 3 } else { i - 4 }))
            },
    )
}

/// Appends the hyphenated UUID text of `x` to `out`.
pub fn push_uuid(out: &mut Vec<char>, x: u128)
    ensures
        final(out)@ == old(out)@ + uuid_text(x),
{
    let mut k: u32 = 0;
    let ghost start = out@;
    let mut written: usize = 0;
    while k < 32
        invariant
            k <= 32,
            start == old(out)@,
            written == k + (if k > 20 { 4int } else if k > 16 { 3int } else if k > 12 { 2int } else if k > 8 { 1int } else { 0int }),
            out@.len() == start.len() + written,
            forall|j: int| 0 <= j < written ==> #[trigger] out@[start.len() + j] == uuid_text(x)[j],
            forall|j: int| 0 <= j < start.len() ==> #[trigger] out@[j] == start[j],
        decreases 32 - k,
    {
        if k == 8 || k == 12 || k == 16 || k == 20 {
            out.push('-');
            written = written + 1;
        }
        let shift: u32 = 4 * (31 - k);
        let d: u32 = ((x >> shift) & 0xf) as u32;
        assert(((x >> shift) & 0xf) < 16) by (bit_vector);
        assert(d as int == nibble(x, k as int)) by {
            assert(((x >> shift) & 0xf) == ((x >> ((4 * (31 - k)) as u128)) & 0xf)) by (bit_vector)
                requires shift == 4 * (31 - k), k < 32;
        }
        assert(d < 16);
        let c = if d == 0 { '0' } else if d == 1 { '1' } else if d == 2 { '2' } else if d == 3 { '3' } else if d == 4 {
            '4'
        } else if d == 5 { '5' } else if d == 6 { '6' } else if d == 7 { '7' } else if d == 8 { '8' } else if d == 9 {
            '9'
        } else if d == 10 { 'a' } else if d == 11 { 'b' } else if d == 12 { 'c' } else if d == 13 { 'd' } else if d == 14 {
            'e'
        } else { 'f' };
        assert(c == hex_char(d as int));
        out.push(c);
        written = written + 1;
        k = k + 1;
    }
    assert forall|i: int| 0 <= i < out@.len() implies out@[i] == (old(out)@ + uuid_text(x))[i] by {
        if i >= start.len() {
            let j = i - start.len();
            assert(out@[start.len() + j] == uuid_text(x)[j]);
        }
    }
    assert(out@ =~= old(out)@ + uuid_text(x));
}

/// The value of a decimal numeral (all of whose characters are digits).
pub open spec fn decimal_value(s: Seq<char>) -> nat
    decreases s.len(),
{
    if s.len() == 0 {
        0
    } else {
        decimal_value(s.drop_last()) * 10 + ((s.last() as int) - ('0' as int)) as nat
    }
}

/// Whether every character is a decimal digit.
pub open spec fn all_digits(s: Seq<char>) -> bool {
    forall|i: int| 0 <= i < s.len() ==> '0' <= #[trigger] s[i] <= '9'
}

/// What `u16::from_str` makes of `s`: an optional `+` then at least one
/// digit, with a value that fits in 16 bits.
pub open spec fn parse_u16_spec(s: Seq<char>) -> Option<u16> {
    let digits = if s.len() > 0 && s[0] == '+' { s.drop_first() } else { s };
    if digits.len() > 0 && all_digits(digits) && decimal_value(digits) <= u16::MAX {
        Some(decimal_value(digits) as u16)
    } else {
        None
    }
}

proof fn lemma_decimal_value_step(s: Seq<char>, i: int)
    requires
        0 <= i < s.len(),
        '0' <= s[i],
    ensures
        decimal_value(s.take(i + 1)) == decimal_value(s.take(i)) * 10 + ((s[i] as int) - ('0' as int)),
{
    assert(s.take(i + 1).drop_last() =~= s.take(i));
}

proof fn lemma_decimal_value_grows(s: Seq<char>, i: int, j: int)
    requires
        0 <= i <= j <= s.len(),
        all_digits(s),
    ensures
        decimal_value(s.take(i)) <= decimal_value(s.take(j)),
    decreases j - i,
{
    if i < j {
        lemma_decimal_value_grows(s, i, j - 1);
        assert('0' <= s[j - 1]);
        lemma_decimal_value_step(s, j - 1);
    }
}

/// Parses a 16-bit number as `u16::from_str` does (see [`parse_u16_spec`]).
pub fn parse_u16(text: &str) -> (r: Option<u16>)
    ensures
        r == parse_u16_spec(text@),
{
    let cs = chars_of(text);
    let start: usize = if cs.len() > 0 && cs[0] == '+' { 1 } else { 0 };
    let ghost digits = if text@.len() > 0 && text@[0] == '+' { text@.drop_first() } else { text@ };
    assert(digits =~= cs@.skip(start as int));
    if start >= cs.len() {
        return None;
    }
    let mut value: u32 = 0;
    let mut i: usize = start;
    while i < cs.len()
        invariant
            cs@ == text@,
            start <= i <= cs@.len(),
            digits == cs@.skip(start as int),
            digits == if text@.len() > 0 && text@[0] == '+' { text@.drop_first() } else { text@ },
            all_digits(digits.take(i - start)),
            value as int == decimal_value(digits.take(i - start)),
            value <= u16::MAX,
        decreases cs@.len() - i,
    {
        let c = cs[i];
        if c < '0' || c > '9' {
            assert(!all_digits(digits)) by {
                assert(digits[i - start] == c);
            }
            return None;
        }
        proof {
            lemma_decimal_value_step(digits, (i - start) as int);
            assert(digits[i - start] == c);
        }
        let d: u32 = (c as u32) - ('0' as u32);
        let next: u32 = value * 10 + d;
        if next > 65535 {
            proof {
                assert(decimal_value(digits.take(i - start + 1)) > u16::MAX);
                if all_digits(digits) {
                    lemma_decimal_value_grows(digits, i - start + 1, digits.len() as int);
                    assert(digits.take(digits.len() as int) =~= digits);
                }
            }
            return None;
        }
        value = next;
        i = i + 1;
        proof {
            assert forall|k: int| 0 <= k < i - start implies '0' <= #[trigger] digits.take(i - start)[k] <= '9' by {
                if k < i - start - 1 {
                    assert(digits.take(i - start - 1)[k] == digits[k]);
                }
            }
        }
    }
    assert(digits.take(cs@.len() - start) =~= digits);
    Some(value as u16)
}

/// Whether a character has the Unicode White_Space property (the property
/// that `char::is_whitespace` tests): tab to carriage return, space, next
/// line, no-break space, the Ogham space mark, the spaces from en quad to
/// hair space, the line and paragraph separators, the narrow no-break and
/// medium mathematical spaces, and the ideographic space.
pub open spec fn white_space(c: char) -> bool {
    let n = c as u32;
    ||| 0x9 <= n <= 0xD
    ||| n == 0x20
    ||| n == 0x85
    ||| n == 0xA0
    ||| n == 0x1680
    ||| 0x2000 <= n <= 0x200A
    ||| n == 0x2028
    ||| n == 0x2029
    ||| n == 0x202F
    ||| n == 0x205F
    ||| n == 0x3000
}

/// Whether a character is white space (see [`white_space`]).
pub fn is_white_space(c: char) -> (r: bool)
    ensures
        r == white_space(c),
{
    let n = c as u32;
    (0x9 <= n && n <= 0xD) || n == 0x20 || n == 0x85 || n == 0xA0 || n == 0x1680 || (0x2000 <= n && n <= 0x200A)
        || n == 0x2028 || n == 0x2029 || n == 0x202F || n == 0x205F || n == 0x3000
}

/// The number of white-space characters `s` starts with.
pub open spec fn leading_space(s: Seq<char>) -> nat
    decreases s.len(),
{
    if s.len() == 0 {
        0
    } else if white_space(s[0]) {
        1 + leading_space(s.drop_first())
    } else {
        0
    }
}

/// The number of white-space characters `s` ends with.
pub open spec fn trailing_space(s: Seq<char>) -> nat
    decreases s.len(),
{
    if s.len() == 0 {
        0
    } else if white_space(s.last()) {
        1 + trailing_space(s.drop_last())
    } else {
        0
    }
}

/// `s` without its leading and trailing white space (`str::trim`).
pub open spec fn trimmed(s: Seq<char>) -> Seq<char> {
    if leading_space(s) >= s.len() {
        Seq::empty()
    } else {
        s.subrange(leading_space(s) as int, s.len() - trailing_space(s))
    }
}

/// `s` cut at each `sep` (`str::split`): the pieces between separators, in order.
pub open spec fn split_at_char(s: Seq<char>, sep: char) -> Seq<Seq<char>>
    decreases s.len(),
{
    if s.len() == 0 {
        seq![Seq::empty()]
    } else {
        let rest = split_at_char(s.drop_last(), sep);
        if s.last() == sep {
            rest.push(Seq::empty())
        } else {
            rest.update(rest.len() - 1, rest.last().push(s.last()))
        }
    }
}

proof fn lemma_split_nonempty(s: Seq<char>, sep: char)
    ensures
        split_at_char(s, sep).len() >= 1,
    decreases s.len(),
{
    if s.len() > 0 {
        lemma_split_nonempty(s.drop_last(), sep);
    }
}

proof fn lemma_leading_prefix(s: Seq<char>, i: int)
    requires
        0 <= i <= s.len(),
        forall|k: int| 0 <= k < i ==> white_space(#[trigger] s[k]),
    ensures
        leading_space(s) == i + leading_space(s.skip(i)),
    decreases i,
{
    if i > 0 {
        assert(white_space(s[0]));
        lemma_leading_prefix(s.drop_first(), i - 1);
        assert(s.drop_first().skip(i - 1) =~= s.skip(i));
    } else {
        assert(s.skip(0) =~= s);
    }
}

proof fn lemma_trailing_suffix(s: Seq<char>, i: int)
    requires
        0 <= i <= s.len(),
        forall|k: int| s.len() - i <= k < s.len() ==> white_space(#[trigger] s[k]),
    ensures
        trailing_space(s) == i + trailing_space(s.take(s.len() - i)),
    decreases i,
{
    if i > 0 {
        assert(white_space(s.last()));
        lemma_trailing_suffix(s.drop_last(), i - 1);
        assert(s.drop_last().take(s.len() - 1 - (i - 1)) =~= s.take(s.len() - i));
    } else {
        assert(s.take(s.len() as int) =~= s);
    }
}

/// `s` without its leading and trailing white space.
pub fn trim_chars(s: &Vec<char>) -> (r: Vec<char>)
    ensures
        r@ == trimmed(s@),
{
    let n = s.len();
    let mut i: usize = 0;
    while i < n && is_white_space(s[i])
        invariant
            n == s@.len(),
            i <= n,
            forall|k: int| 0 <= k < i ==> white_space(#[trigger] s@[k]),
        decreases n - i,
    {
        i = i + 1;
    }
    proof {
        lemma_leading_prefix(s@, i as int);
        if i < n {
            assert(!white_space(s@.skip(i as int)[0]));
        }
    }
    if i == n {
        assert(s@.skip(n as int).len() == 0);
        return Vec::new();
    }
    let mut j: usize = n;
    while j > i && is_white_space(s[j - 1])
        invariant
            n == s@.len(),
            i < n,
            i <= j <= n,
            !white_space(s@[i as int]),
            forall|k: int| j <= k < n ==> white_space(#[trigger] s@[k]),
        decreases j,
    {
        j = j - 1;
    }
    proof {
        lemma_trailing_suffix(s@, (n - j) as int);
        if j > 0 {
            assert(s@.take(j as int).last() == s@[j - 1]);
        }
        if j == i {
            assert(false);
        }
    }
    let mut out: Vec<char> = Vec::new();
    let mut k: usize = i;
    while k < j
        invariant
            i <= k <= j <= n,
            n == s@.len(),
            out@ == s@.subrange(i as int, k as int),
        decreases j - k,
    {
        out.push(s[k]);
        k = k + 1;
        assert(out@ =~= s@.subrange(i as int, k as int));
    }
    out
}

/// The non-empty trimmed pieces of `s` cut at `sep`, as strings, in order.
pub fn split_trimmed_nonempty(s: &str, sep: char) -> (r: Vec<String>)
    ensures
        r@.map_values(|t: String| t@) == split_at_char(s@, sep).map_values(|p: Seq<char>| trimmed(p)).filter(
            |p: Seq<char>| p.len() > 0,
        ),
{
    let cs = chars_of(s);
    let mut pieces: Vec<Vec<char>> = Vec::new();
    let mut current: Vec<char> = Vec::new();
    let mut i: usize = 0;
    proof {
        assert(cs@.take(0) =~= Seq::<char>::empty());
    }
    while i < cs.len()
        invariant
            cs@ == s@,
            i <= cs@.len(),
            pieces@.map_values(|v: Vec<char>| v@).push(current@) == split_at_char(cs@.take(i as int), sep),
        decreases cs@.len() - i,
    {
        let c = cs[i];
        let ghost before = pieces@.map_values(|v: Vec<char>| v@).push(current@);
        proof {
            assert(cs@.take(i as int + 1).drop_last() =~= cs@.take(i as int));
            assert(cs@.take(i as int + 1).last() == c);
        }
        if c == sep {
            let done = current;
            pieces.push(done);
            current = Vec::new();
            assert(pieces@.map_values(|v: Vec<char>| v@).push(current@) =~= before.push(Seq::<char>::empty()));
        } else {
            current.push(c);
            assert(pieces@.map_values(|v: Vec<char>| v@).push(current@) =~= before.update(
                before.len() - 1,
                before.last().push(c),
            ));
        }
        i = i + 1;
    }
    assert(cs@.take(cs@.len() as int) =~= cs@);
    let ghost cur = current@;
    let ghost pre = pieces@.map_values(|v: Vec<char>| v@);
    pieces.push(current);
    let ghost all = pieces@.map_values(|v: Vec<char>| v@);
    assert(all =~= pre.push(cur));
    assert(all == split_at_char(s@, sep));
    let mut out: Vec<String> = Vec::new();
    let mut k: usize = 0;
    while k < pieces.len()
        invariant
            k <= pieces@.len(),
            all == pieces@.map_values(|v: Vec<char>| v@),
            out@.map_values(|t: String| t@) == all.take(k as int).map_values(|p: Seq<char>| trimmed(p)).filter(
                |p: Seq<char>| p.len() > 0,
            ),
        decreases pieces@.len() - k,
    {
        let t = trim_chars(&pieces[k]);
        let ghost prev = out@.map_values(|t: String| t@);
        proof {
            let mapped = all.take(k as int).map_values(|p: Seq<char>| trimmed(p));
            assert(all.take(k as int + 1).map_values(|p: Seq<char>| trimmed(p)) =~= mapped.push(trimmed(all[k as int])));
            mapped.lemma_filter_push(trimmed(all[k as int]), |p: Seq<char>| p.len() > 0);
        }
        if t.len() > 0 {
            out.push(string_of(&t));
            assert(out@.map_values(|t: String| t@) =~= prev.push(t@));
        }
        k = k + 1;
    }
    assert(all.take(pieces@.len() as int) =~= all);
    out
}

/// A number written in decimal reads back as itself: its numeral is all
/// digits, never empty, and has the number as its value; so a port written
/// out parses back to the same port.
pub proof fn lemma_decimal_roundtrip(n: nat)
    ensures
        decimal(n).len() > 0,
        all_digits(decimal(n)),
        decimal_value(decimal(n)) == n,
        n <= u16::MAX ==> parse_u16_spec(decimal(n)) == Some(n as u16),
    decreases n,
{
    if n >= 10 {
        lemma_decimal_roundtrip(n / 10);
        let s = decimal(n / 10);
        let c = digit_char((n % 10) as int);
        assert(decimal(n).drop_last() =~= s);
        assert(decimal(n).last() == c);
        assert forall|i: int| 0 <= i < decimal(n).len() implies '0' <= #[trigger] decimal(n)[i] <= '9' by {
            if i < s.len() {
                assert(decimal(n)[i] == s[i]);
            }
        }
        assert((c as int) - ('0' as int) == n % 10);
        assert(decimal_value(decimal(n)) == decimal_value(s) * 10 + ((c as int) - ('0' as int)));
        assert(n == (n / 10) * 10 + n % 10) by {
            vstd::arithmetic::div_mod::lemma_fundamental_div_mod(n as int, 10);
        }
    } else {
        let c = digit_char(n as int);
        assert((c as int) - ('0' as int) == n);
        assert(decimal(n).drop_last() =~= Seq::<char>::empty());
        assert(decimal_value(Seq::<char>::empty()) == 0);
        assert(decimal(n).last() == c);
        assert(decimal_value(decimal(n)) == decimal_value(decimal(n).drop_last()) * 10 + ((c as int) - ('0' as int)));
    }
    if n <= u16::MAX {
        assert(decimal(n)[0] != '+') by {
            assert('0' <= decimal(n)[0] <= '9');
        }
    }
}

} // verus!
