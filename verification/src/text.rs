//! Decimal rendering of integers, the text building blocks of the model report.
use vstd::prelude::*;
use vstd::string::StrSliceExecFns;

verus! {

/// The ASCII character of a decimal digit.
pub open spec fn digit_char(d: nat) -> char {
    (48 + d) as char
}

/// The decimal digits of `n`, most significant first, without leading zeros
/// (`0` is the single digit `'0'`).
pub open spec fn decimal_digits(n: nat) -> Seq<char>
    decreases n,
{
    if n < 10 {
        seq![digit_char(n)]
    } else {
        decimal_digits(n / 10).push(digit_char(n % 10))
    }
}

/// `digits` with a comma inserted before every block of three characters
/// counted from the right, as in `1,234,567`.
pub open spec fn group_thousands(digits: Seq<char>) -> Seq<char>
    decreases digits.len(),
{
    if digits.len() <= 3 {
        digits
    } else {
        group_thousands(digits.subrange(0, digits.len() - 3)) + seq![',']
            + digits.subrange(digits.len() - 3, digits.len() as int)
    }
}

/// Turns a sequence of characters into a `String`.
/// Calls `FromIterator<char>` for `String` (std), which appends the characters in order,
/// so the string holds exactly the given characters.
#[verifier::external_body]
pub(crate) fn string_from_chars(chars: &Vec<char>) -> (s: String)
    ensures
        s@ == chars@,
{
    chars.iter().collect()
}

pub fn digit(d: u128) -> (c: char)
    requires
        d < 10,
    ensures
        c == digit_char(d as nat),
{
    if d == 0 { '0' }
    else if d == 1 { '1' }
    else if d == 2 { '2' }
    else if d == 3 { '3' }
    else if d == 4 { '4' }
    else if d == 5 { '5' }
    else if d == 6 { '6' }
    else if d == 7 { '7' }
    else if d == 8 { '8' }
    else { '9' }
}

/// Appends the decimal digits of `n`.
pub fn push_decimal(n: u128, out: &mut Vec<char>)
    ensures
        final(out)@ == old(out)@ + decimal_digits(n as nat),
    decreases n,
{
    if n >= 10 {
        push_decimal(n / 10, out);
    }
    out.push(digit(n % 10));
}

/// Appends `group_thousands` of the first `end` characters of `digits`.
fn push_grouped(digits: &Vec<char>, end: usize, out: &mut Vec<char>)
    requires
        end <= digits.len(),
    ensures
        final(out)@ == old(out)@ + group_thousands(digits@.subrange(0, end as int)),
    decreases end,
{
    let ghost prefix = digits@.subrange(0, end as int);
    if end <= 3 {
        let mut k: usize = 0;
        while k < end
            invariant
                k <= end <= digits.len(),
                out@ == old(out)@ + digits@.subrange(0, k as int),
            decreases end - k,
        {
            out.push(digits[k]);
            k = k + 1;
            assert(digits@.subrange(0, k as int) =~= digits@.subrange(0, k - 1).push(digits@[k - 1]));
        }
    } else {
        push_grouped(digits, end - 3, out);
        assert(prefix.subrange(0, prefix.len() - 3) =~= digits@.subrange(0, end - 3));
        out.push(',');
        let ghost before = out@;
        let mut k: usize = end - 3;
        while k < end
            invariant
                3 < end <= digits.len(),
                end - 3 <= k <= end,
                out@ == before + digits@.subrange(end - 3, k as int),
            decreases end - k,
        {
            out.push(digits[k]);
            k = k + 1;
            assert(digits@.subrange(end - 3, k as int) =~= digits@.subrange(end - 3, k - 1).push(digits@[k - 1]));
        }
        assert(prefix.subrange(prefix.len() - 3, prefix.len() as int) =~= digits@.subrange(end - 3, end as int));
    }
}

/// Appends the characters of `s`.
pub fn push_all(out: &mut Vec<char>, s: &Vec<char>)
    ensures
        final(out)@ == old(out)@ + s@,
{
    let mut k: usize = 0;
    while k < s.len()
        invariant
            k <= s.len(),
            out@ == old(out)@ + s@.subrange(0, k as int),
        decreases s.len() - k,
    {
        out.push(s[k]);
        k = k + 1;
        assert(s@.subrange(0, k as int) =~= s@.subrange(0, k - 1).push(s@[k - 1]));
    }
    assert(s@.subrange(0, s.len() as int) =~= s@);
}

/// Appends `n` in decimal with a comma between groups of three digits.
pub fn push_grouped_decimal(n: u128, out: &mut Vec<char>)
    ensures
        final(out)@ == old(out)@ + group_thousands(decimal_digits(n as nat)),
{
    let mut digits: Vec<char> = Vec::new();
    push_decimal(n, &mut digits);
    assert(digits@ =~= decimal_digits(n as nat));
    push_grouped(&digits, digits.len(), out);
    assert(digits@.subrange(0, digits.len() as int) =~= digits@);
}

/// The message `ParseIntError` displays for an error kind.
pub open spec fn int_error_text(e: IntError) -> Seq<char> {
    match e {
        IntError::Empty => "cannot parse integer from empty string"@,
        IntError::InvalidDigit => "invalid digit found in string"@,
        IntError::PosOverflow => "number too large to fit in target type"@,
    }
}

/// Why text is not an unsigned integer, as `FromStr` for the unsigned types reports it.
#[derive(Clone, Copy, Debug, PartialEq, Eq)]
pub enum IntError {
    /// The text is empty.
    Empty,
    /// A character is not a decimal digit (a lone `+` included).
    InvalidDigit,
    /// The number does not fit the target type.
    PosOverflow,
}

impl IntError {
    /// The message `ParseIntError` displays for this kind.
    pub fn message(&self) -> (s: &'static str)
        ensures
            s@ == int_error_text(*self),
    {
        match self {
            IntError::Empty => "cannot parse integer from empty string",
            IntError::InvalidDigit => "invalid digit found in string",
            IntError::PosOverflow => "number too large to fit in target type",
        }
    }
}

/// The value of a decimal digit character, if it is one.
pub open spec fn digit_value(c: char) -> Option<nat> {
    if '0' <= c && c <= '9' { Some((c as nat - '0' as nat) as nat) } else { None }
}

/// Reads the digits `ds` after `acc`, left to right, for a type whose maximum is
/// `max`: a non-digit is `InvalidDigit`; a value passing `max` is `PosOverflow`,
/// found at the digit where it happens.
pub open spec fn accumulate_digits(ds: Seq<char>, acc: nat, max: nat) -> Result<nat, IntError>
    decreases ds.len(),
{
    if ds.len() == 0 {
        Ok(acc)
    } else {
        match digit_value(ds[0]) {
            None => Err(IntError::InvalidDigit),
            Some(d) => if acc * 10 + d > max {
                Err(IntError::PosOverflow)
            } else {
                accumulate_digits(ds.skip(1), acc * 10 + d, max)
            },
        }
    }
}

/// The result of parsing `s` as an unsigned integer whose maximum is `max`, as
/// `str::parse` does for `u8`..`u64`/`usize`: an optional leading `+`, then
/// one or more decimal digits.
pub open spec fn parse_unsigned_spec(s: Seq<char>, max: nat) -> Result<nat, IntError> {
    if s.len() == 0 {
        Err(IntError::Empty)
    } else if (s[0] == '+' || s[0] == '-') && s.len() == 1 {
        Err(IntError::InvalidDigit)
    } else if s[0] == '+' {
        accumulate_digits(s.skip(1), 0, max)
    } else {
        accumulate_digits(s, 0, max)
    }
}

proof fn lemma_accumulate_bound(ds: Seq<char>, acc: nat, max: nat)
    requires
        acc <= max,
    ensures
        accumulate_digits(ds, acc, max) matches Ok(v) ==> v <= max,
    decreases ds.len(),
{
    if ds.len() > 0 {
        if let Some(d) = digit_value(ds[0]) {
            if acc * 10 + d <= max {
                lemma_accumulate_bound(ds.skip(1), acc * 10 + d, max);
            }
        }
    }
}

/// Parses `s` as a decimal unsigned integer no larger than `max`.
pub fn parse_unsigned(s: &str, max: u64) -> (r: Result<u64, IntError>)
    ensures
        match parse_unsigned_spec(s@, max as nat) {
            Ok(v) => r == Ok::<u64, IntError>(v as u64),
            Err(e) => r == Err::<u64, IntError>(e),
        },
        r matches Ok(v) ==> v <= max,
        parse_unsigned_spec(s@, max as nat) matches Ok(v) ==> v <= max,
{
    proof {
        lemma_accumulate_bound(s@, 0, max as nat);
        lemma_accumulate_bound(s@.skip(1), 0, max as nat);
    }
    let len = s.unicode_len();
    if len == 0 {
        return Err(IntError::Empty);
    }
    let first = s.get_char(0);
    if (first == '+' || first == '-') && len == 1 {
        return Err(IntError::InvalidDigit);
    }
    let start: usize = if first == '+' { 1 } else { 0 };
    let ghost ds = s@.skip(start as int);
    assert(s@.skip(0) =~= s@);
    assert(parse_unsigned_spec(s@, max as nat) == accumulate_digits(ds, 0, max as nat));
    let mut acc: u64 = 0;
    let mut i: usize = start;
    while i < len
        invariant
            len == s@.len(),
            start <= i <= len,
            ds == s@.skip(start as int),
            parse_unsigned_spec(s@, max as nat) == accumulate_digits(ds, 0, max as nat),
            acc <= max,
            accumulate_digits(ds, 0, max as nat) == accumulate_digits(s@.skip(i as int), acc as nat, max as nat),
        decreases len - i,
    {
        let c = s.get_char(i);
        let ghost rest = s@.skip(i as int);
        assert(rest[0] == c);
        assert(rest.skip(1) =~= s@.skip(i + 1));
        if !('0' <= c && c <= '9') {
            assert(digit_value(c) is None);
            assert(accumulate_digits(rest, acc as nat, max as nat) == Err::<nat, IntError>(IntError::InvalidDigit));
            return Err(IntError::InvalidDigit);
        }
        let d = (c as u64) - ('0' as u64);
        assert(digit_value(c) == Some(d as nat));
        if d > max || acc > (max - d) / 10 {
            assert(acc * 10 + d > max) by (nonlinear_arith) requires d > max || acc > (max - d) / 10, acc >= 0;
            assert(accumulate_digits(rest, acc as nat, max as nat) == Err::<nat, IntError>(IntError::PosOverflow));
            return Err(IntError::PosOverflow);
        }
        assert(acc * 10 + d <= max) by (nonlinear_arith) requires acc <= (max - d) / 10, d <= max;
        acc = acc * 10 + d;
        i = i + 1;
    }
    assert(s@.skip(len as int) =~= Seq::<char>::empty());
    Ok(acc)
}

/// Whether two texts hold the same characters.
pub fn same_text(a: &str, b: &str) -> (r: bool)
    ensures
        r == (a@ == b@),
{
    let n = a.unicode_len();
    if n != b.unicode_len() {
        return false;
    }
    let mut i: usize = 0;
    while i < n
        invariant
            n == a@.len() == b@.len(),
            i <= n,
            forall|j: int| 0 <= j < i ==> a@[j] == b@[j],
        decreases n - i,
    {
        if a.get_char(i) != b.get_char(i) {
            return false;
        }
        i = i + 1;
    }
    assert(a@ =~= b@);
    true
}

/// Whether `a` ends with the characters of `suffix`.
pub fn ends_with_text(a: &str, suffix: &str) -> (r: bool)
    ensures
        r == (a@.len() >= suffix@.len() && a@.skip(a@.len() - suffix@.len()) == suffix@),
{
    let n = a.unicode_len();
    let m = suffix.unicode_len();
    if n < m {
        return false;
    }
    let mut i: usize = 0;
    while i < m
        invariant
            n == a@.len(),
            m == suffix@.len(),
            m <= n,
            i <= m,
            forall|j: int| 0 <= j < i ==> a@[n - m + j] == suffix@[j],
        decreases m - i,
    {
        if a.get_char(n - m + i) != suffix.get_char(i) {
            assert(a@.skip(n - m)[i as int] != suffix@[i as int]);
            return false;
        }
        i = i + 1;
    }
    assert(a@.skip(n - m) =~= suffix@);
    true
}

/// The extension of the file named by a path, as `std::path::Path::extension`
/// finds it: the part of the last component after its final `.`, if that
/// component has a `.` that is not its first character.
pub uninterp spec fn extension_of(path: Seq<char>) -> Option<Seq<char>>;

/// The extension of the file a path names: std's `Path::extension`, whose
/// result is turned back into text (it always is text for a path given as
/// text). The contract names the result by `extension_of`.
#[verifier::external_body]
pub(crate) fn file_extension(path: &str) -> (ext: Option<String>)
    ensures
        match ext {
            Some(e) => extension_of(path@) == Some(e@),
            None => extension_of(path@) is None,
        },
{
    std::path::Path::new(path).extension().and_then(|e| e.to_str()).map(|e| e.to_string())
}

/// A text in upper case by the Unicode rules of std's `str::to_uppercase`.
pub uninterp spec fn uppercase_of(s: Seq<char>) -> Seq<char>;

/// std's `str::to_uppercase`: the Unicode upper-case form of a text (which may
/// be longer than the text). The contract names the result by `uppercase_of`.
#[verifier::external_body]
pub(crate) fn to_uppercase(s: &str) -> (u: String)
    ensures
        u@ == uppercase_of(s@),
{
    s.to_uppercase()
}

/// `s` with its commas removed.
pub open spec fn without_commas(s: Seq<char>) -> Seq<char>
    decreases s.len(),
{
    if s.len() == 0 {
        s
    } else if s.last() == ',' {
        without_commas(s.drop_last())
    } else {
        without_commas(s.drop_last()).push(s.last())
    }
}

proof fn lemma_without_commas_add(a: Seq<char>, b: Seq<char>)
    ensures
        without_commas(a + b) == without_commas(a) + without_commas(b),
    decreases b.len(),
{
    if b.len() == 0 {
        assert(a + b =~= a);
        assert(without_commas(a) + without_commas(b) =~= without_commas(a));
    } else {
        assert((a + b).drop_last() =~= a + b.drop_last());
        assert((a + b).last() == b.last());
        lemma_without_commas_add(a, b.drop_last());
        if b.last() != ',' {
            assert(without_commas(a) + without_commas(b.drop_last()).push(b.last()) =~= (without_commas(a)
                + without_commas(b.drop_last())).push(b.last()));
        }
    }
}

proof fn lemma_without_commas_plain(s: Seq<char>)
    requires
        forall|i: int| 0 <= i < s.len() ==> s[i] != ',',
    ensures
        without_commas(s) == s,
    decreases s.len(),
{
    if s.len() > 0 {
        lemma_without_commas_plain(s.drop_last());
        assert(s.drop_last().push(s.last()) =~= s);
    }
}

proof fn lemma_decimal_digits_are_digits(n: nat)
    ensures
        forall|i: int| 0 <= i < decimal_digits(n).len() ==> '0' <= #[trigger] decimal_digits(n)[i] <= '9',
        decimal_digits(n).len() > 0,
    decreases n,
{
    if n >= 10 {
        lemma_decimal_digits_are_digits(n / 10);
    }
}

/// Grouping digits into thousands only inserts commas: with the commas taken
/// out again, the text is the digits it was made from.
pub proof fn lemma_group_thousands_keeps_digits(digits: Seq<char>)
    requires
        forall|i: int| 0 <= i < digits.len() ==> digits[i] != ',',
    ensures
        without_commas(group_thousands(digits)) == digits,
    decreases digits.len(),
{
    if digits.len() <= 3 {
        lemma_without_commas_plain(digits);
    } else {
        let head = digits.subrange(0, digits.len() - 3);
        let tail = digits.subrange(digits.len() - 3, digits.len() as int);
        lemma_group_thousands_keeps_digits(head);
        lemma_without_commas_add(group_thousands(head) + seq![','], tail);
        lemma_without_commas_add(group_thousands(head), seq![',']);
        assert(seq![','].drop_last() =~= Seq::<char>::empty());
        assert(without_commas(seq![',']) == without_commas(Seq::<char>::empty()));
        assert(without_commas(seq![',']) =~= Seq::<char>::empty());
        lemma_without_commas_plain(tail);
        assert(group_thousands(digits) == group_thousands(head) + seq![','] + tail);
        assert(without_commas(group_thousands(head)) + without_commas(seq![',']) =~= head);
        assert(head + tail =~= digits);
    }
}

/// The thousands-grouped decimal form of `n`, with its commas taken out, is
/// the plain decimal form of `n`.
pub proof fn lemma_grouped_decimal_digits(n: nat)
    ensures
        without_commas(group_thousands(decimal_digits(n))) == decimal_digits(n),
{
    lemma_decimal_digits_are_digits(n);
    lemma_group_thousands_keeps_digits(decimal_digits(n));
}

proof fn lemma_accumulate_append(ds: Seq<char>, es: Seq<char>, acc: nat, max: nat)
    ensures
        accumulate_digits(ds + es, acc, max) == match accumulate_digits(ds, acc, max) {
            Ok(v) => accumulate_digits(es, v, max),
            Err(e) => Err(e),
        },
    decreases ds.len(),
{
    if ds.len() == 0 {
        assert(ds + es =~= es);
    } else {
        assert((ds + es).skip(1) =~= ds.skip(1) + es);
        assert((ds + es)[0] == ds[0]);
        if let Some(d) = digit_value(ds[0]) {
            if acc * 10 + d <= max {
                lemma_accumulate_append(ds.skip(1), es, acc * 10 + d, max);
            }
        }
    }
}

/// Parsing the decimal form of a number gives the number back, where it fits.
pub proof fn lemma_parse_decimal_digits(n: nat, max: nat)
    requires
        n <= max,
    ensures
        parse_unsigned_spec(decimal_digits(n), max) == Ok::<nat, IntError>(n),
    decreases n,
{
    lemma_decimal_digits_are_digits(n);
    assert(digit_value(digit_char(n % 10)) == Some((n % 10) as nat));
    if n < 10 {
        assert(decimal_digits(n) == seq![digit_char(n)]);
        assert(decimal_digits(n).skip(1) =~= Seq::<char>::empty());
        assert(accumulate_digits(decimal_digits(n).skip(1), n, max) == Ok::<nat, IntError>(n));
    } else {
        lemma_parse_decimal_digits(n / 10, max);
        lemma_decimal_digits_are_digits(n / 10);
        let d = decimal_digits(n / 10);
        assert(d[0] != '+' && d[0] != '-');
        assert(decimal_digits(n) =~= d + seq![digit_char(n % 10)]);
        assert(accumulate_digits(d, 0, max) == Ok::<nat, IntError>(n / 10));
        lemma_accumulate_append(d, seq![digit_char(n % 10)], 0, max);
        assert(seq![digit_char(n % 10)].skip(1) =~= Seq::<char>::empty());
        assert((n / 10) * 10 + n % 10 == n);
        let c = seq![digit_char(n % 10)];
        assert(c[0] == digit_char(n % 10));
        assert(accumulate_digits(c.skip(1), n, max) == Ok::<nat, IntError>(n));
        assert(accumulate_digits(c, n / 10, max) == Ok::<nat, IntError>(n));
    }
}

} // verus!
