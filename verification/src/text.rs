//! Characters, decimal numbers and the splitting of text.

use vstd::prelude::*;

verus! {

// ---------------------------------------------------------------------
// Decimal numbers
// ---------------------------------------------------------------------

pub open spec fn is_digit(c: char) -> bool {
    '0' <= c && c <= '9'
}

pub open spec fn digit_value(c: char) -> nat {
    (c as int - '0' as int) as nat
}

pub open spec fn all_digits(s: Seq<char>) -> bool {
    forall|i: int| 0 <= i < s.len() ==> is_digit(#[trigger] s[i])
}

/// The value of a run of decimal digits, most significant first.
pub open spec fn digits_value(s: Seq<char>) -> nat
    decreases s.len(),
{
    if s.len() == 0 {
        0
    } else {
        digits_value(s.drop_last()) * 10 + digit_value(s.last())
    }
}

/// At least one digit, and nothing else.
pub open spec fn is_number(s: Seq<char>) -> bool {
    s.len() > 0 && all_digits(s)
}

/// The number that `s` spells for an unsigned type with maximum `hi`: an
/// optional `+`, then digits only.
pub open spec fn unsigned_value(s: Seq<char>, hi: nat) -> Option<nat> {
    let digits = if s.len() > 0 && s[0] == '+' {
        s.skip(1)
    } else {
        s
    };
    if is_number(digits) && digits_value(digits) <= hi {
        Some(digits_value(digits))
    } else {
        None
    }
}

/// The number that `s` spells for a signed type with the range `lo..=hi`:
/// an optional sign, then digits only.
pub open spec fn signed_value(s: Seq<char>, lo: int, hi: int) -> Option<int> {
    if s.len() > 0 && s[0] == '-' {
        let digits = s.skip(1);
        if is_number(digits) && -(digits_value(digits) as int) >= lo {
            Some(-(digits_value(digits) as int))
        } else {
            None
        }
    } else {
        match unsigned_value(s, hi as nat) {
            Some(v) => Some(v as int),
            None => None,
        }
    }
}

/// The digit with the value `d`.
pub open spec fn digit_char(d: nat) -> char {
    ('0' as int + d) as char
}

/// `n` in decimal, without leading zeros.
pub open spec fn decimal(n: nat) -> Seq<char>
    decreases n,
{
    if n < 10 {
        seq![digit_char(n)]
    } else {
        decimal(n / 10).push(digit_char(n % 10))
    }
}

/// `n` in decimal, with a `-` in front of a negative number.
pub open spec fn signed_decimal(n: int) -> Seq<char> {
    if n < 0 {
        seq!['-'] + decimal((-n) as nat)
    } else {
        decimal(n as nat)
    }
}

proof fn lemma_digits_value_grows(s: Seq<char>, k: int)
    requires
        0 <= k <= s.len(),
    ensures
        digits_value(s.take(k)) <= digits_value(s),
    decreases s.len() - k,
{
    if k == s.len() {
        assert(s.take(k) =~= s);
    } else {
        lemma_digits_value_grows(s, k + 1);
        assert(s.take(k + 1).drop_last() =~= s.take(k));
    }
}

/// The value of the digits from `from` on, when there is at least one,
/// nothing else follows, and the value fits.
fn parse_digits(s: &Vec<char>, from: usize) -> (r: Option<u64>)
    requires
        from <= s@.len(),
    ensures
        ({
            let digits = s@.skip(from as int);
            match r {
                Some(v) => is_number(digits) && v == digits_value(digits),
                None => !is_number(digits) || digits_value(digits) > u64::MAX,
            }
        }),
{
    let ghost digits = s@.skip(from as int);
    if from == s.len() {
        return None;
    }
    let mut value: u64 = 0;
    let mut i: usize = from;
    assert(digits.take(0) =~= Seq::<char>::empty());
    while i < s.len()
        invariant
            from <= i <= s@.len(),
            digits == s@.skip(from as int),
            value == digits_value(digits.take(i - from)),
            all_digits(digits.take(i - from)),
        decreases s@.len() - i,
    {
        let c: char = s[i];
        assert(digits[i - from] == c);
        if c < '0' || c > '9' {
            assert(!is_digit(digits[i - from]));
            return None;
        }
        let d: u64 = (c as u32 - '0' as u32) as u64;
        let ghost k = i - from;
        proof {
            assert(digits.take(k + 1).drop_last() =~= digits.take(k));
            lemma_digits_value_grows(digits, k + 1);
        }
        if value > (u64::MAX - d) / 10 {
            return None;
        }
        value = value * 10 + d;
        i = i + 1;
    }
    assert(digits.take(i - from) =~= digits);
    Some(value)
}

/// Read `s` as an unsigned number that fits `u64`.
pub fn parse_u64(s: &Vec<char>) -> (r: Option<u64>)
    ensures
        match r {
            Some(v) => unsigned_value(s@, u64::MAX as nat) == Some(v as nat),
            None => unsigned_value(s@, u64::MAX as nat) is None,
        },
{
    if s.len() > 0 && s[0] == '+' {
        parse_digits(s, 1)
    } else {
        assert(s@.skip(0) =~= s@);
        parse_digits(s, 0)
    }
}

/// Read `s` as an unsigned number that fits `u32`.
pub fn parse_u32(s: &Vec<char>) -> (r: Option<u32>)
    ensures
        match r {
            Some(v) => unsigned_value(s@, u32::MAX as nat) == Some(v as nat),
            None => unsigned_value(s@, u32::MAX as nat) is None,
        },
{
    match parse_u64(s) {
        Some(v) => if v <= u32::MAX as u64 {
            Some(v as u32)
        } else {
            None
        },
        None => None,
    }
}

/// Read `s` as a signed number that fits `i64`.
pub fn parse_i64(s: &Vec<char>) -> (r: Option<i64>)
    ensures
        match r {
            Some(v) => signed_value(s@, i64::MIN as int, i64::MAX as int) == Some(v as int),
            None => signed_value(s@, i64::MIN as int, i64::MAX as int) is None,
        },
{
    if s.len() > 0 && s[0] == '-' {
        match parse_digits(s, 1) {
            Some(v) => if v <= i64::MAX as u64 {
                Some(-(v as i64))
            } else if v == 0x8000_0000_0000_0000u64 {
                Some(i64::MIN)
            } else {
                None
            },
            None => None,
        }
    } else {
        match parse_u64(s) {
            Some(v) => if v <= i64::MAX as u64 {
                Some(v as i64)
            } else {
                None
            },
            None => None,
        }
    }
}

/// Read `s` as a signed number that fits `i32`.
pub fn parse_i32(s: &Vec<char>) -> (r: Option<i32>)
    ensures
        match r {
            Some(v) => signed_value(s@, i32::MIN as int, i32::MAX as int) == Some(v as int),
            None => signed_value(s@, i32::MIN as int, i32::MAX as int) is None,
        },
{
    match parse_i64(s) {
        Some(v) => if i32::MIN as i64 <= v && v <= i32::MAX as i64 {
            Some(v as i32)
        } else {
            None
        },
        None => None,
    }
}

fn digit_str(d: u64) -> (r: &'static str)
    requires
        d < 10,
    ensures
        r@ == seq![digit_char(d as nat)],
{
    proof {
        reveal_strlit("0");
        reveal_strlit("1");
        reveal_strlit("2");
        reveal_strlit("3");
        reveal_strlit("4");
        reveal_strlit("5");
        reveal_strlit("6");
        reveal_strlit("7");
        reveal_strlit("8");
        reveal_strlit("9");
    }
    match d {
        0 => "0",
        1 => "1",
        2 => "2",
        3 => "3",
        4 => "4",
        5 => "5",
        6 => "6",
        7 => "7",
        8 => "8",
        _ => "9",
    }
}

/// Append `n` in decimal.
pub fn push_decimal(out: &mut String, n: u64)
    ensures
        final(out)@ == old(out)@ + decimal(n as nat),
    decreases n,
{
    if n >= 10 {
        push_decimal(out, n / 10);
    }
    out.append(digit_str(n % 10));
    assert(out@ =~= old(out)@ + decimal(n as nat));
}

/// Append `n` in decimal, with its sign when it is negative.
pub fn push_signed(out: &mut String, n: i64)
    ensures
        final(out)@ == old(out)@ + signed_decimal(n as int),
{
    if n < 0 {
        proof {
            reveal_strlit("-");
        }
        out.append("-");
        assert(out@ =~= old(out)@ + seq!['-']);
        let magnitude: u64 = if n == i64::MIN {
            0x8000_0000_0000_0000u64
        } else {
            (-n) as u64
        };
        push_decimal(out, magnitude);
        assert(out@ =~= old(out)@ + signed_decimal(n as int));
    } else {
        push_decimal(out, n as u64);
    }
}

/// The decimal form of a number is a number, of the right value.
pub proof fn lemma_decimal_is_number(n: nat)
    ensures
        is_number(decimal(n)),
        digits_value(decimal(n)) == n,
        is_digit(decimal(n)[0]),
    decreases n,
{
    if n < 10 {
        assert(decimal(n).drop_last() =~= Seq::<char>::empty());
        assert(digits_value(decimal(n).drop_last()) == 0);
    } else {
        lemma_decimal_is_number(n / 10);
        assert(decimal(n).drop_last() =~= decimal(n / 10));
        assert(forall|i: int| 0 <= i < decimal(n).len() ==> is_digit(#[trigger] decimal(n)[i]));
    }
}

/// Ten to the power of `k`.
pub open spec fn ten_to(k: nat) -> nat
    decreases k,
{
    if k == 0 {
        1
    } else {
        10 * ten_to((k - 1) as nat)
    }
}

/// A number below ten to the power of `k` has at most `k` digits.
pub proof fn decimal_is_short(n: nat, k: nat)
    requires
        k > 0,
        n < ten_to(k),
    ensures
        decimal(n).len() <= k,
    decreases k,
{
    if n >= 10 {
        if k == 1 {
            assert(ten_to(1) == 10 * ten_to(0));
        } else {
            decimal_is_short(n / 10, (k - 1) as nat);
        }
    }
}

/// The decimal form of a number starts with a digit.
pub proof fn decimal_starts_with_digit(n: nat)
    ensures
        decimal(n).len() > 0,
        is_digit(decimal(n)[0]),
{
    lemma_decimal_is_number(n);
}

/// A number written in decimal reads back as itself, by the unsigned and
/// by the signed rule, wherever it fits the type.
pub proof fn decimal_reads_back(n: nat)
    ensures
        forall|hi: nat| n <= hi ==> #[trigger] unsigned_value(decimal(n), hi) == Some(n),
        forall|lo: int, hi: int|
            n <= hi ==> #[trigger] signed_value(decimal(n), lo, hi) == Some(n as int),
{
    lemma_decimal_is_number(n);
}

// ---------------------------------------------------------------------
// Characters of a string
// ---------------------------------------------------------------------

/// The characters of each string of a list.
pub open spec fn texts(v: Seq<String>) -> Seq<Seq<char>> {
    Seq::new(v.len(), |i: int| v[i]@)
}

/// The characters of each piece of a list.
pub open spec fn pieces(v: Seq<Vec<char>>) -> Seq<Seq<char>> {
    Seq::new(v.len(), |i: int| v[i]@)
}

/// The characters of each slice of a list.
pub open spec fn slices(v: Seq<&str>) -> Seq<Seq<char>> {
    Seq::new(v.len(), |i: int| v[i]@)
}

/// The characters of `s`.
pub fn chars_of(s: &str) -> (v: Vec<char>)
    ensures
        v@ == s@,
{
    let mut v: Vec<char> = Vec::new();
    for c in it: s.chars()
        invariant
            it.seq() == s@,
            v@ == s@.take(it.index()),
    {
        v.push(c);
    }
    v
}

/// Whether `s` is the text `t`.
pub fn same_text(s: &str, t: &str) -> (r: bool)
    ensures
        r == (s@ == t@),
{
    let a: Vec<char> = chars_of(s);
    let b: Vec<char> = chars_of(t);
    if a.len() != b.len() {
        return false;
    }
    let mut i: usize = 0;
    while i < a.len()
        invariant
            i <= a@.len(),
            a@.len() == b@.len(),
            a@ == s@,
            b@ == t@,
            forall|j: int| 0 <= j < i ==> a@[j] == b@[j],
        decreases a@.len() - i,
    {
        if a[i] != b[i] {
            return false;
        }
        i = i + 1;
    }
    assert(s@ =~= t@);
    true
}

/// A copy of `s`.
pub fn copy_text(s: &str) -> (r: String)
    ensures
        r@ == s@,
{
    s.to_owned()
}

// ---------------------------------------------------------------------
// Splitting
// ---------------------------------------------------------------------

/// The pieces of `s` between occurrences of `sep`; one more than there are
/// occurrences, empty pieces among them.
pub open spec fn split_on(s: Seq<char>, sep: char) -> Seq<Seq<char>>
    decreases s.len(),
{
    if s.len() == 0 {
        seq![Seq::<char>::empty()]
    } else {
        let before = split_on(s.drop_last(), sep);
        if s.last() == sep {
            before.push(Seq::<char>::empty())
        } else {
            before.drop_last().push(before.last().push(s.last()))
        }
    }
}

/// Characters with the Unicode property White_Space.
pub open spec fn is_white_space(c: char) -> bool {
    let u = c as int;
    ||| 0x9 <= u <= 0xd
    ||| u == 0x20
    ||| u == 0x85
    ||| u == 0xa0
    ||| u == 0x1680
    ||| 0x2000 <= u <= 0x200a
    ||| u == 0x2028
    ||| u == 0x2029
    ||| u == 0x202f
    ||| u == 0x205f
    ||| u == 0x3000
}

/// The maximal runs of `s` that hold no white space.
pub open spec fn fields(s: Seq<char>) -> Seq<Seq<char>>
    decreases s.len(),
{
    if s.len() == 0 {
        Seq::empty()
    } else {
        let before = fields(s.drop_last());
        if is_white_space(s.last()) {
            before
        } else if s.len() == 1 || is_white_space(s[s.len() - 2]) {
            before.push(seq![s.last()])
        } else {
            before.drop_last().push(before.last().push(s.last()))
        }
    }
}

/// What follows the last occurrence of `c`; all of `s` when there is none.
pub open spec fn after_last(s: Seq<char>, c: char) -> Seq<char>
    decreases s.len(),
{
    if s.len() == 0 || s.last() == c {
        Seq::empty()
    } else {
        after_last(s.drop_last(), c).push(s.last())
    }
}

/// Splitting always yields a piece.
pub proof fn split_on_is_not_empty(s: Seq<char>, sep: char)
    ensures
        split_on(s, sep).len() > 0,
    decreases s.len(),
{
    if s.len() > 0 {
        split_on_is_not_empty(s.drop_last(), sep);
    }
}

/// Split `s` at every `sep`.
pub fn split<'a>(s: &'a str, sep: char) -> (r: Vec<&'a str>)
    ensures
        slices(r@) == split_on(s@, sep),
        r@.len() > 0,
{
    let chars: Vec<char> = chars_of(s);
    let mut done: Vec<&'a str> = Vec::new();
    let mut start: usize = 0;
    let mut i: usize = 0;
    assert(s@.take(0) =~= Seq::<char>::empty());
    assert(slices(done@).push(s@.subrange(0, 0)) =~= split_on(s@.take(0), sep));
    while i < chars.len()
        invariant
            start <= i <= s@.len(),
            chars@ == s@,
            slices(done@).push(s@.subrange(start as int, i as int)) == split_on(
                s@.take(i as int),
                sep,
            ),
        decreases s@.len() - i,
    {
        let ghost seen = split_on(s@.take(i as int), sep);
        let ghost done_before = slices(done@);
        let ghost current = s@.subrange(start as int, i as int);
        assert(s@.take(i + 1).drop_last() =~= s@.take(i as int));
        assert(seen.drop_last() =~= done_before);
        assert(seen.last() == current);
        if chars[i] == sep {
            done.push(s.substring_char(start, i));
            start = i + 1;
            assert(slices(done@) =~= done_before.push(current));
            assert(s@.subrange(start as int, i + 1) =~= Seq::<char>::empty());
        } else {
            assert(s@.subrange(start as int, i + 1) =~= current.push(s@[i as int]));
        }
        i = i + 1;
    }
    assert(s@.take(i as int) =~= s@);
    let ghost done_before = slices(done@);
    done.push(s.substring_char(start, i));
    assert(slices(done@) =~= done_before.push(s@.subrange(start as int, i as int)));
    done
}

/// Whether `c` is white space.
pub fn white_space(c: char) -> (r: bool)
    ensures
        r == is_white_space(c),
{
    let u: u32 = c as u32;
    (0x9 <= u && u <= 0xd) || u == 0x20 || u == 0x85 || u == 0xa0 || u == 0x1680 || (0x2000 <= u
        && u <= 0x200a) || u == 0x2028 || u == 0x2029 || u == 0x202f || u == 0x205f || u == 0x3000
}

/// The white-space separated fields of `s` from position `from` on.
pub fn split_fields(s: &Vec<char>, from: usize) -> (r: Vec<Vec<char>>)
    requires
        from <= s@.len(),
    ensures
        pieces(r@) == fields(s@.skip(from as int)),
{
    let ghost t = s@.skip(from as int);
    let mut done: Vec<Vec<char>> = Vec::new();
    let mut current: Vec<char> = Vec::new();
    let mut i: usize = from;
    assert(t.take(0) =~= Seq::<char>::empty());
    assert(pieces(done@) =~= fields(t.take(0)));
    while i < s.len()
        invariant
            from <= i <= s@.len(),
            t == s@.skip(from as int),
            current@.len() > 0 <==> (i > from && !is_white_space(t[i - from - 1])),
            fields(t.take(i - from)) == if current@.len() > 0 {
                pieces(done@).push(current@)
            } else {
                pieces(done@)
            },
        decreases s@.len() - i,
    {
        let c: char = s[i];
        let ghost k = i - from;
        let ghost seen = fields(t.take(k));
        let ghost done_before = pieces(done@);
        let ghost current_before = current@;
        assert(t.take(k + 1).drop_last() =~= t.take(k));
        assert(t.take(k + 1).last() == c);
        if white_space(c) {
            if current.len() > 0 {
                done.push(current);
                current = Vec::new();
                assert(pieces(done@) =~= done_before.push(current_before));
            }
        } else {
            current.push(c);
            proof {
                if current_before.len() > 0 {
                    assert(seen.drop_last() =~= done_before);
                    assert(seen.last() == current_before);
                } else {
                    assert(current@ =~= seq![c]);
                }
            }
        }
        i = i + 1;
    }
    assert(t.take(i - from) =~= t);
    if current.len() > 0 {
        let ghost done_before = pieces(done@);
        let ghost current_before = current@;
        done.push(current);
        assert(pieces(done@) =~= done_before.push(current_before));
    }
    done
}

proof fn lemma_after_last_none(s: Seq<char>, c: char)
    requires
        forall|i: int| 0 <= i < s.len() ==> s[i] != c,
    ensures
        after_last(s, c) == s,
    decreases s.len(),
{
    if s.len() > 0 {
        lemma_after_last_none(s.drop_last(), c);
        assert(s.drop_last().push(s.last()) =~= s);
    } else {
        assert(s =~= Seq::<char>::empty());
    }
}

/// What follows the last occurrence of `c`, by its position.
pub proof fn lemma_after_last_at(s: Seq<char>, c: char, k: int)
    requires
        0 <= k < s.len(),
        s[k] == c,
        forall|i: int| k < i < s.len() ==> s[i] != c,
    ensures
        after_last(s, c) == s.skip(k + 1),
    decreases s.len(),
{
    if k == s.len() - 1 {
        assert(s.skip(k + 1) =~= Seq::<char>::empty());
    } else {
        lemma_after_last_at(s.drop_last(), c, k);
        assert(s.drop_last().skip(k + 1).push(s.last()) =~= s.skip(k + 1));
    }
}

/// Where the part of `s` after the last `c` begins.
pub fn last_part(s: &Vec<char>, c: char) -> (from: usize)
    ensures
        from <= s@.len(),
        s@.skip(from as int) == after_last(s@, c),
{
    let mut i: usize = s.len();
    while i > 0
        invariant
            i <= s@.len(),
            forall|j: int| i <= j < s@.len() ==> s@[j] != c,
        decreases i,
    {
        if s[i - 1] == c {
            proof {
                lemma_after_last_at(s@, c, i - 1);
            }
            return i;
        }
        i = i - 1;
    }
    proof {
        lemma_after_last_none(s@, c);
        assert(s@.skip(0) =~= s@);
    }
    0
}

/// The part of `s` after the last `c`, copied out.
pub fn tail_after(s: &Vec<char>, c: char) -> (r: Vec<char>)
    ensures
        r@ == after_last(s@, c),
{
    let from: usize = last_part(s, c);
    let mut r: Vec<char> = Vec::new();
    let mut i: usize = from;
    assert(s@.subrange(from as int, from as int) =~= Seq::<char>::empty());
    while i < s.len()
        invariant
            from <= i <= s@.len(),
            r@ == s@.subrange(from as int, i as int),
        decreases s@.len() - i,
    {
        r.push(s[i]);
        assert(s@.subrange(from as int, i + 1) =~= s@.subrange(from as int, i as int).push(s@[i as int]));
        i = i + 1;
    }
    assert(s@.subrange(from as int, s@.len() as int) =~= s@.skip(from as int));
    r
}

// ---------------------------------------------------------------------
// Laws
// ---------------------------------------------------------------------

/// A digit as text: one of the ten.
pub open spec fn from_0_to_9(c: char) -> bool {
    '0' <= c && c <= '9'
}

/// Reading goes digit by digit: one more digit multiplies the value by ten
/// and adds what the digit counts, and the number is refused once it is too
/// large for its type.
pub proof fn one_more_digit_counts_ten_times(s: Seq<char>, c: char, hi: nat)
    requires
        s.len() > 0,
        forall|i: int| 0 <= i < s.len() ==> from_0_to_9(#[trigger] s[i]),
        from_0_to_9(c),
    ensures
        ({
            let d = c as int - '0' as int;
            &&& unsigned_value(seq![c], hi) == if d <= hi {
                Some(d as nat)
            } else {
                None
            }
            &&& unsigned_value(s.push(c), hi) == match unsigned_value(s, hi) {
                Some(v) => if 10 * v + d <= hi {
                    Some((10 * v + d) as nat)
                } else {
                    None
                },
                None => None,
            }
        }),
{
    let one = seq![c];
    assert(one.drop_last() =~= Seq::<char>::empty());
    assert(digits_value(one.drop_last()) == 0);
    assert(is_number(one)) by {
        assert(is_digit(one[0]));
    }
    assert(is_number(s)) by {
        assert forall|i: int| 0 <= i < s.len() implies is_digit(#[trigger] s[i]) by {
            assert(from_0_to_9(s[i]));
        }
    }
    let more = s.push(c);
    assert(more.drop_last() =~= s);
    assert(more[0] == s[0]);
    assert(from_0_to_9(s[0]));
    assert(is_number(more)) by {
        assert forall|i: int| 0 <= i < more.len() implies is_digit(#[trigger] more[i]) by {
            if i < s.len() {
                assert(more[i] == s[i]);
            }
        }
    }
}

/// A sign in front of digits: `+` changes nothing, `-` negates, and a type
/// without negative numbers refuses it.
pub proof fn signs_are_read(s: Seq<char>, lo: int, hi: nat)
    requires
        s.len() > 0,
        forall|i: int| 0 <= i < s.len() ==> from_0_to_9(#[trigger] s[i]),
        lo <= 0,
    ensures
        unsigned_value(seq!['+'] + s, hi) == unsigned_value(s, hi),
        unsigned_value(seq!['-'] + s, hi) is None,
        signed_value(s, lo, hi as int) == match unsigned_value(s, hi) {
            Some(v) => Some(v as int),
            None => None,
        },
        signed_value(seq!['+'] + s, lo, hi as int) == signed_value(s, lo, hi as int),
        signed_value(seq!['-'] + s, lo, hi as int) == match unsigned_value(s, (-lo) as nat) {
            Some(v) => Some(-(v as int)),
            None => None,
        },
{
    let plus = seq!['+'] + s;
    let minus = seq!['-'] + s;
    assert(plus.skip(1) =~= s);
    assert(minus.skip(1) =~= s);
    assert(plus[0] == '+' && minus[0] == '-');
    assert(from_0_to_9(s[0]));
    assert(!is_digit(minus[0]));
}

/// Whatever holds something else than a sign in front and digits, or no
/// digit at all, is no number.
pub proof fn anything_else_is_no_number(s: Seq<char>, i: int, lo: int, hi: nat)
    requires
        ({
            ||| s.len() == 0
            ||| s.len() == 1 && !from_0_to_9(s[0])
            ||| 0 < i < s.len() && !from_0_to_9(s[i])
            ||| s.len() > 0 && !from_0_to_9(s[0]) && s[0] != '+' && s[0] != '-'
        }),
    ensures
        unsigned_value(s, hi) is None,
        signed_value(s, lo, hi as int) is None,
{
    if 0 < i < s.len() && !from_0_to_9(s[i]) {
        assert(!is_digit(s.skip(1)[i - 1]));
        assert(!is_digit(s[i]));
    } else if s.len() > 0 {
        assert(s.len() == 1 ==> s.skip(1).len() == 0);
        assert(!is_digit(s[0]));
    }
}

/// A signed number written in decimal reads back as itself.
pub proof fn signed_decimal_reads_back(n: int, lo: int, hi: int)
    requires
        lo <= n <= hi,
    ensures
        signed_value(signed_decimal(n), lo, hi) == Some(n),
{
    if n < 0 {
        let m = (-n) as nat;
        lemma_decimal_is_number(m);
        assert(signed_decimal(n).skip(1) =~= decimal(m));
    } else {
        decimal_reads_back(n as nat);
    }
}

/// The decimal form holds digits only, and no zero in front but for zero
/// itself.
pub proof fn decimal_has_no_leading_zero(n: nat)
    ensures
        forall|i: int| 0 <= i < decimal(n).len() ==> from_0_to_9(#[trigger] decimal(n)[i]),
        decimal(n).len() > 0,
        decimal(n)[0] == '0' ==> n == 0 && decimal(n).len() == 1,
    decreases n,
{
    lemma_decimal_is_number(n);
    assert forall|i: int| 0 <= i < decimal(n).len() implies from_0_to_9(
        #[trigger] decimal(n)[i],
    ) by {
        assert(is_digit(decimal(n)[i]));
    }
    if n >= 10 {
        decimal_has_no_leading_zero(n / 10);
        assert(decimal(n)[0] == decimal(n / 10)[0]);
    }
}

/// The parts with `sep` between them.
pub open spec fn joined(parts: Seq<Seq<char>>, sep: char) -> Seq<char>
    decreases parts.len(),
{
    if parts.len() == 0 {
        Seq::empty()
    } else if parts.len() == 1 {
        parts[0]
    } else {
        joined(parts.drop_last(), sep).push(sep) + parts.last()
    }
}

proof fn lemma_split_more(s: Seq<char>, w: Seq<char>, sep: char)
    requires
        !w.contains(sep),
    ensures
        split_on(s + w, sep) == split_on(s, sep).drop_last().push(split_on(s, sep).last() + w),
    decreases w.len(),
{
    split_on_is_not_empty(s, sep);
    if w.len() == 0 {
        assert(s + w =~= s);
        assert(split_on(s, sep).last() + w =~= split_on(s, sep).last());
        assert(split_on(s, sep).drop_last().push(split_on(s, sep).last()) =~= split_on(s, sep));
    } else {
        let v = w.drop_last();
        assert(!v.contains(sep)) by {
            if v.contains(sep) {
                let j = choose|j: int| 0 <= j < v.len() && v[j] == sep;
                assert(w[j] == sep);
            }
        }
        lemma_split_more(s, v, sep);
        assert((s + w).drop_last() =~= s + v);
        assert(w[w.len() - 1] == w.last());
        assert((s + w).last() == w.last());
        let before = split_on(s + v, sep);
        assert(before.drop_last() =~= split_on(s, sep).drop_last());
        assert(before.last() == split_on(s, sep).last() + v);
        assert(before.last().push(w.last()) =~= split_on(s, sep).last() + w);
    }
}

/// Splitting undoes joining: parts that do not hold the separator come back
/// one for one, empty ones among them.
pub proof fn splitting_undoes_joining(parts: Seq<Seq<char>>, sep: char)
    requires
        parts.len() > 0,
        forall|i: int| 0 <= i < parts.len() ==> !(#[trigger] parts[i]).contains(sep),
    ensures
        split_on(joined(parts, sep), sep) == parts,
    decreases parts.len(),
{
    let nothing = Seq::<char>::empty();
    let last = parts.last();
    assert(last == parts[parts.len() - 1]);
    if parts.len() == 1 {
        lemma_split_more(nothing, last, sep);
        assert(nothing + last =~= last);
        assert(split_on(nothing, sep).drop_last() =~= Seq::<Seq<char>>::empty());
        assert(split_on(nothing, sep).last() + last =~= last);
        assert(split_on(joined(parts, sep), sep) =~= parts);
    } else {
        let front = parts.drop_last();
        assert forall|i: int| 0 <= i < front.len() implies !(#[trigger] front[i]).contains(sep) by {
            assert(front[i] == parts[i]);
        }
        splitting_undoes_joining(front, sep);
        let s = joined(front, sep).push(sep);
        assert(s.drop_last() =~= joined(front, sep));
        assert(split_on(s, sep) == front.push(nothing));
        lemma_split_more(s, last, sep);
        assert(front.push(nothing).drop_last() =~= front);
        assert(nothing + last =~= last);
        assert(front.push(last) =~= parts);
    }
}

/// Joining undoes splitting, and no piece holds the separator.
pub proof fn joining_undoes_splitting(s: Seq<char>, sep: char)
    ensures
        joined(split_on(s, sep), sep) == s,
        split_on(s, sep).len() > 0,
        forall|i: int|
            0 <= i < split_on(s, sep).len() ==> !(#[trigger] split_on(s, sep)[i]).contains(sep),
    decreases s.len(),
{
    let whole = split_on(s, sep);
    split_on_is_not_empty(s, sep);
    if s.len() == 0 {
        assert(joined(whole, sep) =~= s);
    } else {
        let t = s.drop_last();
        let before = split_on(t, sep);
        joining_undoes_splitting(t, sep);
        if s.last() == sep {
            assert(whole.drop_last() =~= before);
            assert(joined(whole, sep) =~= s);
        } else {
            assert(whole.drop_last() =~= before.drop_last());
            assert(t.push(s.last()) =~= s);
            if before.len() == 1 {
                assert(joined(whole, sep) =~= s);
            } else {
                assert(joined(whole, sep) =~= joined(before, sep).push(s.last()));
            }
            assert forall|i: int| 0 <= i < whole.len() implies !(#[trigger] whole[i]).contains(
                sep,
            ) by {
                if i < whole.len() - 1 {
                    assert(whole[i] == before[i]);
                } else {
                    let piece = before[i];
                    assert(!piece.contains(sep));
                    assert(whole[i] == piece.push(s.last()));
                    if whole[i].contains(sep) {
                        let j = choose|j: int| 0 <= j < whole[i].len() && whole[i][j] == sep;
                        assert(piece[j] == sep);
                    }
                }
            }
        }
    }
}

/// A run of characters none of which is white space.
pub open spec fn is_word(w: Seq<char>) -> bool {
    w.len() > 0 && forall|i: int| 0 <= i < w.len() ==> !is_white_space(#[trigger] w[i])
}

/// White space separates fields: a word after it is one more field, whole
/// and as it stands, and white space at the end is no field.
pub proof fn white_space_separates_fields(s: Seq<char>, space: char, w: Seq<char>)
    requires
        is_white_space(space),
        is_word(w),
    ensures
        fields(Seq::<char>::empty()) == Seq::<Seq<char>>::empty(),
        fields(w) == seq![w],
        fields(s.push(space)) == fields(s),
        fields(s.push(space) + w) == fields(s).push(w),
    decreases w.len(),
{
    let t = s.push(space);
    assert(t.drop_last() =~= s);
    let v = w.drop_last();
    assert(v.push(w.last()) =~= w);
    assert(w[w.len() - 1] == w.last());
    assert(!is_white_space(w.last()));
    assert((t + w).drop_last() =~= t + v);
    assert((t + w).last() == w.last());
    if v.len() == 0 {
        assert(t + v =~= t);
        assert(v =~= Seq::<char>::empty());
        assert(fields(v) =~= Seq::<Seq<char>>::empty());
        assert((t + w)[(t + w).len() - 2] == space);
        assert(w =~= seq![w.last()]);
        assert(fields(w) =~= seq![w]);
    } else {
        assert(is_word(v)) by {
            assert(forall|i: int| 0 <= i < v.len() ==> v[i] == w[i]);
        }
        white_space_separates_fields(s, space, v);
        assert((t + w)[(t + w).len() - 2] == w[w.len() - 2]);
        assert(!is_white_space(w[w.len() - 2]));
        assert(fields(s).push(v).drop_last() =~= fields(s));
        assert(seq![v].drop_last() =~= Seq::<Seq<char>>::empty());
        assert(seq![v].drop_last().push(w) =~= seq![w]);
    }
}

/// Printable ASCII other than the space is no white space; the space, the
/// tab and the line ends are; and beyond ASCII the characters that Unicode
/// says are.
pub proof fn printable_characters_are_no_white_space(c: char)
    ensures
        0x21 <= c as int <= 0x7e ==> !is_white_space(c),
        c == ' ' || c == '\t' || c == '\n' || c == '\r' ==> is_white_space(c),
        is_white_space(c) <==> {
            ||| '\u{9}' <= c <= '\u{d}'
            ||| c == '\u{20}'
            ||| c == '\u{85}'
            ||| c == '\u{a0}'
            ||| c == '\u{1680}'
            ||| '\u{2000}' <= c <= '\u{200a}'
            ||| c == '\u{2028}' || c == '\u{2029}' || c == '\u{202f}'
            ||| c == '\u{205f}'
            ||| c == '\u{3000}'
        },
{
}

/// What follows the last occurrence of a character is everything up to the
/// end that does not hold it.
pub proof fn last_occurrence_cuts(front: Seq<char>, c: char, tail: Seq<char>)
    requires
        !tail.contains(c),
    ensures
        after_last(front.push(c) + tail, c) == tail,
        after_last(tail, c) == tail,
{
    let s = front.push(c) + tail;
    let k = front.len() as int;
    assert(s[k] == c);
    assert forall|i: int| k < i < s.len() implies s[i] != c by {
        assert(s[i] == tail[i - k - 1]);
    }
    lemma_after_last_at(s, c, k);
    assert(s.skip(k + 1) =~= tail);
    assert forall|i: int| 0 <= i < tail.len() implies tail[i] != c by {}
    lemma_after_last_none(tail, c);
}

/// White space keeps what precedes it apart from what follows: the fields
/// of both, one after the other.
pub proof fn fields_add_up_around_white_space(s: Seq<char>, space: char, t: Seq<char>)
    requires
        is_white_space(space),
    ensures
        fields(s.push(space) + t) == fields(s) + fields(t),
    decreases t.len(),
{
    let front = s.push(space);
    assert(front.drop_last() =~= s);
    if t.len() == 0 {
        assert(front + t =~= front);
        assert(fields(s) + fields(t) =~= fields(s));
    } else {
        let u = t.drop_last();
        fields_add_up_around_white_space(s, space, u);
        let whole = front + t;
        assert(whole.drop_last() =~= front + u);
        assert(whole.last() == t.last());
        if !is_white_space(t.last()) {
            if t.len() == 1 {
                assert(whole[whole.len() - 2] == space);
                assert(fields(u) =~= Seq::<Seq<char>>::empty());
                assert(fields(s) + fields(t) =~= (fields(s) + fields(u)).push(seq![t.last()]));
            } else {
                assert(whole[whole.len() - 2] == t[t.len() - 2]);
                if is_white_space(t[t.len() - 2]) {
                    assert(fields(s) + fields(t) =~= (fields(s) + fields(u)).push(
                        seq![t.last()],
                    ));
                } else {
                    lemma_fields_end(u);
                    let both = fields(s) + fields(u);
                    assert(both.last() == fields(u).last());
                    assert(fields(s) + fields(t) =~= both.drop_last().push(
                        both.last().push(t.last()),
                    ));
                }
            }
        }
    }
}

/// Text that ends in no white space has a field.
proof fn lemma_fields_end(s: Seq<char>)
    requires
        s.len() > 0,
        !is_white_space(s.last()),
    ensures
        fields(s).len() > 0,
    decreases s.len(),
{
}

} // verus!
