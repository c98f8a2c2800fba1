//! Recognises listed-option identifiers in a broker's symbol/description pair and
//! writes them in the ledger's canonical form.
//!
//! A symbol such as `XYZ 01/19/2024 50.00 C` names an option when its description
//! reads like `CALL XYZ CORP $50 EXP 01/19/24`; the pair is checked field by field
//! before the option is encoded.
use vstd::prelude::*;

use crate::date::{
    year_mod_100, compact_date_text, month_day_year_text, parse_date, parsed_date, push_compact_date,
    push_month_day_year, LedgerDate,
};
use crate::text::{
    chars_of, first_index, first_index_of, is_digit, lemma_first_index_bounds, push_char,
    push_range, push_str, push_zeros, ranges_equal, string_of, sub_vec, zeros, decimal_text,
    padded_decimal,
};

verus! {

/// Why a symbol that reads as an option could not be encoded.
#[derive(Clone, Copy, Debug, PartialEq, Eq, Structural)]
pub enum OptionMismatch {
    /// The description does not read as an option.
    Description,
    /// A strike price is not a decimal number.
    StrikeFormat,
    /// The two strike prices differ.
    Strike,
    /// An expiration date is not a calendar date.
    ExpirationDate,
    /// The two expiration dates differ.
    Expiration,
    /// PUT/CALL in the description disagrees with P/C in the symbol.
    PutCall,
}

/// What the codec makes of a symbol/description pair.
pub enum OptionOutcome {
    /// The symbol does not read as an option.
    NotOption,
    /// The symbol reads as an option but the pair is inconsistent.
    Mismatch(OptionMismatch),
    /// The canonical symbol and the display name of the option.
    Encoded(Seq<char>, Seq<char>),
}

pub open spec fn is_upper(c: char) -> bool {
    'A' <= c <= 'Z'
}

pub open spec fn is_strike_char(c: char) -> bool {
    is_digit(c) || c == '.'
}

/// Every character of `s[a..b]` is a digit or a point.
pub open spec fn strike_chars_in(s: Seq<char>, a: int, b: int) -> bool {
    forall|j: int| a <= j < b ==> is_strike_char(#[trigger] s[j])
}

/// The end of the run of capital letters that starts at `i`.
pub open spec fn upper_run_end(s: Seq<char>, i: int) -> int
    decreases s.len() - i,
{
    if 0 <= i < s.len() && is_upper(s[i]) {
        upper_run_end(s, i + 1)
    } else {
        i
    }
}

/// `s[i..i+10]` has the shape `dd/dd/dddd`.
pub open spec fn long_date_at(s: Seq<char>, i: int) -> bool {
    &&& 0 <= i && i + 10 <= s.len()
    &&& is_digit(s[i]) && is_digit(s[i + 1]) && s[i + 2] == '/'
    &&& is_digit(s[i + 3]) && is_digit(s[i + 4]) && s[i + 5] == '/'
    &&& is_digit(s[i + 6]) && is_digit(s[i + 7]) && is_digit(s[i + 8]) && is_digit(s[i + 9])
}

/// `s[i..i+8]` has the shape `dd/dd/dd`.
pub open spec fn short_date_at(s: Seq<char>, i: int) -> bool {
    &&& 0 <= i && i + 8 <= s.len()
    &&& is_digit(s[i]) && is_digit(s[i + 1]) && s[i + 2] == '/'
    &&& is_digit(s[i + 3]) && is_digit(s[i + 4]) && s[i + 5] == '/'
    &&& is_digit(s[i + 6]) && is_digit(s[i + 7])
}

/// Where the underlying ticker of an option symbol ends.
pub open spec fn ticker_end(s: Seq<char>) -> int {
    upper_run_end(s, 0)
}

/// The symbol reads `<TICKER> <MM/DD/YYYY> <strike> <P|C>`: capital letters, a
/// date, digits and points, and the put/call flag, separated by single spaces.
pub open spec fn is_option_symbol(s: Seq<char>) -> bool {
    let t = ticker_end(s);
    let n = s.len() as int;
    &&& n >= t + 14
    &&& s[t] == ' '
    &&& long_date_at(s, t + 1)
    &&& s[t + 11] == ' '
    &&& strike_chars_in(s, t + 12, n - 2)
    &&& s[n - 2] == ' '
    &&& (s[n - 1] == 'P' || s[n - 1] == 'C')
}

pub open spec fn symbol_ticker(s: Seq<char>) -> Seq<char> {
    s.subrange(0, ticker_end(s))
}

pub open spec fn symbol_date(s: Seq<char>) -> Seq<char> {
    s.subrange(ticker_end(s) + 1, ticker_end(s) + 11)
}

pub open spec fn symbol_strike(s: Seq<char>) -> Seq<char> {
    s.subrange(ticker_end(s) + 12, s.len() - 2)
}

pub open spec fn symbol_right(s: Seq<char>) -> char {
    s[s.len() - 1]
}

pub open spec fn starts_put(d: Seq<char>) -> bool {
    d.len() >= 4 && d[0] == 'P' && d[1] == 'U' && d[2] == 'T' && d[3] == ' '
}

pub open spec fn starts_call(d: Seq<char>) -> bool {
    d.len() >= 5 && d[0] == 'C' && d[1] == 'A' && d[2] == 'L' && d[3] == 'L' && d[4] == ' '
}

/// Where the underlying's name starts in an option description.
pub open spec fn name_start(d: Seq<char>) -> int {
    if starts_put(d) {
        4
    } else {
        5
    }
}

/// Where the `$` before the strike stands in an option description.
pub open spec fn dollar_index(d: Seq<char>) -> int {
    first_index_of(d, '$', name_start(d))
}

/// The description reads `<PUT|CALL> <name>$<strike> EXP <MM/DD/YY>`, where the
/// name holds no `$` and the strike only digits and points.
pub open spec fn is_option_description(d: Seq<char>) -> bool {
    let k = dollar_index(d);
    let n = d.len() as int;
    &&& starts_put(d) || starts_call(d)
    &&& n >= k + 14
    &&& d[n - 13] == ' ' && d[n - 12] == 'E' && d[n - 11] == 'X' && d[n - 10] == 'P'
    &&& d[n - 9] == ' '
    &&& short_date_at(d, n - 8)
    &&& strike_chars_in(d, k + 1, n - 13)
}

pub open spec fn description_name(d: Seq<char>) -> Seq<char> {
    d.subrange(name_start(d), dollar_index(d))
}

pub open spec fn description_strike(d: Seq<char>) -> Seq<char> {
    d.subrange(dollar_index(d) + 1, d.len() - 13)
}

pub open spec fn description_date(d: Seq<char>) -> Seq<char> {
    d.subrange(d.len() - 8, d.len() as int)
}

/// A decimal number: digits with at most one point, and at least one digit.
pub open spec fn is_decimal(s: Seq<char>) -> bool {
    let p = first_index_of(s, '.', 0);
    &&& strike_chars_in(s, 0, s.len() as int)
    &&& first_index_of(s, '.', p + 1) == s.len()
    &&& s.len() > (if p < s.len() { 1int } else { 0int })
}

/// The digits before the point.
pub open spec fn whole_part(s: Seq<char>) -> Seq<char> {
    s.subrange(0, first_index_of(s, '.', 0))
}

/// The digits after the point (none where there is no point).
pub open spec fn fraction_part(s: Seq<char>) -> Seq<char> {
    let p = first_index_of(s, '.', 0);
    if p < s.len() {
        s.subrange(p + 1, s.len() as int)
    } else {
        Seq::empty()
    }
}

pub open spec fn without_leading_zeros(s: Seq<char>) -> Seq<char>
    decreases s.len(),
{
    if s.len() > 0 && s[0] == '0' {
        without_leading_zeros(s.drop_first())
    } else {
        s
    }
}

pub open spec fn without_trailing_zeros(s: Seq<char>) -> Seq<char>
    decreases s.len(),
{
    if s.len() > 0 && s.last() == '0' {
        without_trailing_zeros(s.drop_last())
    } else {
        s
    }
}

/// Two decimal numbers have the same value.
pub open spec fn same_decimal(a: Seq<char>, b: Seq<char>) -> bool {
    &&& without_leading_zeros(whole_part(a)) == without_leading_zeros(whole_part(b))
    &&& without_trailing_zeros(fraction_part(a)) == without_trailing_zeros(fraction_part(b))
}

/// `k` spaces.
pub open spec fn spaces(k: int) -> Seq<char> {
    Seq::new(if k > 0 { k as nat } else { 0 }, |i: int| ' ')
}

/// The strike as eight fixed-point digits: dollars zero-padded on the left to five
/// digits, cents zero-padded on the right to three, no point.
pub open spec fn strike_code(k: Seq<char>) -> Seq<char> {
    let dollars = whole_part(k);
    let cents = fraction_part(k);
    zeros(5 - dollars.len()) + dollars + cents + zeros(3 - cents.len())
}

/// The canonical option symbol: the ticker padded with spaces to six characters,
/// the expiration as `YYMMDD`, the put/call flag and the strike code.
pub open spec fn canonical_symbol(s: Seq<char>, expiration: LedgerDate) -> Seq<char> {
    symbol_ticker(s) + spaces(6 - symbol_ticker(s).len()) + compact_date_text(expiration)
        + seq![symbol_right(s)] + strike_code(symbol_strike(s))
}

/// Unicode `White_Space`, the characters that `str::trim_end` removes.
pub open spec fn is_white_space(c: char) -> bool {
    let u = c as u32;
    (0x09 <= u <= 0x0d) || u == 0x20 || u == 0x85 || u == 0xa0 || u == 0x1680 || (0x2000 <= u
        <= 0x200a) || u == 0x2028 || u == 0x2029 || u == 0x202f || u == 0x205f || u == 0x3000
}

/// `s` without its trailing white space.
pub open spec fn trim_end(s: Seq<char>) -> Seq<char>
    decreases s.len(),
{
    if s.len() > 0 && is_white_space(s.last()) {
        trim_end(s.drop_last())
    } else {
        s
    }
}

pub open spec fn put_call_word(d: Seq<char>) -> Seq<char> {
    if starts_put(d) {
        "PUT"@
    } else {
        "CALL"@
    }
}

/// The display name: `<PUT|CALL> : <name> - <ticker> <MM/DD/YYYY> <strike> <P|C>`.
pub open spec fn display_name(s: Seq<char>, d: Seq<char>, expiration: LedgerDate) -> Seq<char> {
    put_call_word(d) + " : "@ + trim_end(description_name(d)) + " - "@ + symbol_ticker(s)
        + seq![' '] + month_day_year_text(expiration) + seq![' '] + symbol_strike(s) + seq![' ']
        + seq![symbol_right(s)]
}

/// The codec on a pair, given the dates read from the symbol's and the
/// description's expiration fields.
pub open spec fn option_outcome(
    s: Seq<char>,
    d: Seq<char>,
    symbol_expiration: Option<LedgerDate>,
    description_expiration: Option<LedgerDate>,
) -> OptionOutcome {
    if !is_option_symbol(s) {
        OptionOutcome::NotOption
    } else if !is_option_description(d) {
        OptionOutcome::Mismatch(OptionMismatch::Description)
    } else if !is_decimal(symbol_strike(s)) || !is_decimal(description_strike(d)) {
        OptionOutcome::Mismatch(OptionMismatch::StrikeFormat)
    } else if !same_decimal(symbol_strike(s), description_strike(d)) {
        OptionOutcome::Mismatch(OptionMismatch::Strike)
    } else if symbol_expiration is None || description_expiration is None {
        OptionOutcome::Mismatch(OptionMismatch::ExpirationDate)
    } else if symbol_expiration != description_expiration {
        OptionOutcome::Mismatch(OptionMismatch::Expiration)
    } else if starts_call(d) != (symbol_right(s) == 'C') {
        OptionOutcome::Mismatch(OptionMismatch::PutCall)
    } else {
        OptionOutcome::Encoded(
            canonical_symbol(s, description_expiration->0),
            display_name(s, d, description_expiration->0),
        )
    }
}

/// A date as (year, month, day) triple, back as a `LedgerDate`.
pub open spec fn date_of_triple(p: Option<(int, int, int)>) -> Option<LedgerDate> {
    match p {
        Some(t) => Some(LedgerDate { year: t.0 as i32, month: t.1 as u32, day: t.2 as u32 }),
        None => None,
    }
}

/// The codec on a pair, reading the expiration dates with chrono.
pub open spec fn option_outcome_of(s: Seq<char>, d: Seq<char>) -> OptionOutcome {
    option_outcome(
        s,
        d,
        date_of_triple(parsed_date(symbol_date(s), "%m/%d/%Y"@)),
        date_of_triple(parsed_date(description_date(d), "%m/%d/%y"@)),
    )
}

/// The outcome that a result of the codec stands for.
pub open spec fn outcome_view(r: Result<Option<(String, String)>, OptionMismatch>) -> OptionOutcome {
    match r {
        Ok(None) => OptionOutcome::NotOption,
        Ok(Some((sym, name))) => OptionOutcome::Encoded(sym@, name@),
        Err(e) => OptionOutcome::Mismatch(e),
    }
}

fn upper_end(v: &Vec<char>) -> (t: usize)
    ensures
        t == ticker_end(v@),
        t <= v@.len(),
{
    let mut i: usize = 0;
    while i < v.len() && 'A' <= v[i] && v[i] <= 'Z'
        invariant
            i <= v@.len(),
            upper_run_end(v@, 0) == upper_run_end(v@, i as int),
        decreases v.len() - i,
    {
        i = i + 1;
    }
    i
}

fn strike_chars(v: &Vec<char>, a: usize, b: usize) -> (r: bool)
    requires
        a <= b <= v@.len(),
    ensures
        r == strike_chars_in(v@, a as int, b as int),
{
    let mut i = a;
    while i < b
        invariant
            a <= i <= b <= v@.len(),
            strike_chars_in(v@, a as int, i as int),
        decreases b - i,
    {
        if !(('0' <= v[i] && v[i] <= '9') || v[i] == '.') {
            return false;
        }
        i = i + 1;
    }
    true
}

fn digit_at(v: &Vec<char>, i: usize) -> (r: bool)
    requires
        i < v@.len(),
    ensures
        r == is_digit(v@[i as int]),
{
    '0' <= v[i] && v[i] <= '9'
}

pub(crate) fn long_date(v: &Vec<char>, i: usize) -> (r: bool)
    requires
        i <= v@.len(),
    ensures
        r == long_date_at(v@, i as int),
{
    if v.len() - i < 10 {
        return false;
    }
    digit_at(v, i) && digit_at(v, i + 1) && v[i + 2] == '/' && digit_at(v, i + 3) && digit_at(
        v,
        i + 4,
    ) && v[i + 5] == '/' && digit_at(v, i + 6) && digit_at(v, i + 7) && digit_at(v, i + 8)
        && digit_at(v, i + 9)
}

fn short_date(v: &Vec<char>, i: usize) -> (r: bool)
    requires
        i <= v@.len(),
    ensures
        r == short_date_at(v@, i as int),
{
    if v.len() - i < 8 {
        return false;
    }
    digit_at(v, i) && digit_at(v, i + 1) && v[i + 2] == '/' && digit_at(v, i + 3) && digit_at(
        v,
        i + 4,
    ) && v[i + 5] == '/' && digit_at(v, i + 6) && digit_at(v, i + 7)
}

/// Where the ticker of an option symbol ends, if the symbol reads as an option.
fn match_symbol(v: &Vec<char>) -> (r: Option<usize>)
    ensures
        r is Some <==> is_option_symbol(v@),
        r matches Some(t) ==> t == ticker_end(v@),
{
    let t = upper_end(v);
    let n = v.len();
    if n < 14 || t > n - 14 {
        return None;
    }
    if v[t] == ' ' && long_date(v, t + 1) && v[t + 11] == ' ' && strike_chars(v, t + 12, n - 2)
        && v[n - 2] == ' ' && (v[n - 1] == 'P' || v[n - 1] == 'C') {
        Some(t)
    } else {
        None
    }
}

/// Where the `$` of an option description stands, if the description reads as an option.
fn match_description(v: &Vec<char>) -> (r: Option<usize>)
    ensures
        r is Some <==> is_option_description(v@),
        r matches Some(k) ==> k == dollar_index(v@),
{
    let n = v.len();
    let put = n >= 4 && v[0] == 'P' && v[1] == 'U' && v[2] == 'T' && v[3] == ' ';
    let call = n >= 5 && v[0] == 'C' && v[1] == 'A' && v[2] == 'L' && v[3] == 'L' && v[4] == ' ';
    if !put && !call {
        return None;
    }
    let k = first_index(v, '$', if put { 4 } else { 5 });
    if n < 14 || k > n - 14 {
        return None;
    }
    if v[n - 13] == ' ' && v[n - 12] == 'E' && v[n - 11] == 'X' && v[n - 10] == 'P' && v[n - 9]
        == ' ' && short_date(v, n - 8) && strike_chars(v, k + 1, n - 13) {
        Some(k)
    } else {
        None
    }
}

fn is_decimal_exec(k: &Vec<char>) -> (r: bool)
    ensures
        r == is_decimal(k@),
{
    let p = first_index(k, '.', 0);
    let all = strike_chars(k, 0, k.len());
    let second = if p < k.len() {
        first_index(k, '.', p + 1)
    } else {
        k.len()
    };
    proof {
        if p >= k@.len() {
            assert(first_index_of(k@, '.', p + 1) == k@.len());
        }
    }
    all && second == k.len() && k.len() > (if p < k.len() { 1 } else { 0 })
}

/// The first index of `v[from..to]` past its leading zeros.
fn skip_leading_zeros(v: &Vec<char>, from: usize, to: usize) -> (i: usize)
    requires
        from <= to <= v@.len(),
    ensures
        from <= i <= to,
        v@.subrange(i as int, to as int) == without_leading_zeros(v@.subrange(from as int, to as int)),
{
    let mut i = from;
    while i < to && v[i] == '0'
        invariant
            from <= i <= to <= v@.len(),
            without_leading_zeros(v@.subrange(i as int, to as int)) == without_leading_zeros(
                v@.subrange(from as int, to as int),
            ),
        decreases to - i,
    {
        proof {
            assert(v@.subrange(i as int, to as int).drop_first() == v@.subrange(i + 1, to as int));
        }
        i = i + 1;
    }
    i
}

/// The end of `v[from..to]` before its trailing zeros.
fn skip_trailing_zeros(v: &Vec<char>, from: usize, to: usize) -> (j: usize)
    requires
        from <= to <= v@.len(),
    ensures
        from <= j <= to,
        v@.subrange(from as int, j as int) == without_trailing_zeros(v@.subrange(from as int, to as int)),
{
    let mut j = to;
    while j > from && v[j - 1] == '0'
        invariant
            from <= j <= to <= v@.len(),
            without_trailing_zeros(v@.subrange(from as int, j as int)) == without_trailing_zeros(
                v@.subrange(from as int, to as int),
            ),
        decreases j - from,
    {
        proof {
            assert(v@.subrange(from as int, j as int).drop_last() == v@.subrange(from as int, j - 1));
        }
        j = j - 1;
    }
    j
}

/// The range of the fraction digits of a decimal: after the point, or empty at the end.
fn fraction_range(k: &Vec<char>) -> (r: (usize, usize))
    ensures
        r.0 <= r.1 <= k@.len(),
        k@.subrange(r.0 as int, r.1 as int) == fraction_part(k@),
        r.1 == k@.len(),
{
    let p = first_index(k, '.', 0);
    if p < k.len() {
        (p + 1, k.len())
    } else {
        proof {
            assert(k@.subrange(k@.len() as int, k@.len() as int) =~= Seq::<char>::empty());
        }
        (k.len(), k.len())
    }
}

fn same_decimal_exec(a: &Vec<char>, b: &Vec<char>) -> (r: bool)
    ensures
        r == same_decimal(a@, b@),
{
    let pa = first_index(a, '.', 0);
    let pb = first_index(b, '.', 0);
    let wa = skip_leading_zeros(a, 0, pa);
    let wb = skip_leading_zeros(b, 0, pb);
    let (fa0, fa1) = fraction_range(a);
    let (fb0, fb1) = fraction_range(b);
    let ea = skip_trailing_zeros(a, fa0, fa1);
    let eb = skip_trailing_zeros(b, fb0, fb1);
    ranges_equal(a, wa, pa, b, wb, pb) && ranges_equal(a, fa0, ea, b, fb0, eb)
}

fn white(c: char) -> (r: bool)
    ensures
        r == is_white_space(c),
{
    let u = c as u32;
    (0x09 <= u && u <= 0x0d) || u == 0x20 || u == 0x85 || u == 0xa0 || u == 0x1680 || (0x2000 <= u
        && u <= 0x200a) || u == 0x2028 || u == 0x2029 || u == 0x202f || u == 0x205f || u == 0x3000
}

/// The end of `v[from..to]` before its trailing white space.
fn trim_end_at(v: &Vec<char>, from: usize, to: usize) -> (j: usize)
    requires
        from <= to <= v@.len(),
    ensures
        from <= j <= to,
        v@.subrange(from as int, j as int) == trim_end(v@.subrange(from as int, to as int)),
{
    let mut j = to;
    while j > from && white(v[j - 1])
        invariant
            from <= j <= to <= v@.len(),
            trim_end(v@.subrange(from as int, j as int)) == trim_end(
                v@.subrange(from as int, to as int),
            ),
        decreases j - from,
    {
        proof {
            assert(v@.subrange(from as int, j as int).drop_last() == v@.subrange(from as int, j - 1));
        }
        j = j - 1;
    }
    j
}

fn push_spaces(s: &mut String, k: usize)
    ensures
        final(s)@ == old(s)@ + spaces(k as int),
{
    let mut i: usize = 0;
    while i < k
        invariant
            i <= k,
            s@ == old(s)@ + spaces(i as int),
        decreases k - i,
    {
        push_char(s, ' ');
        proof {
            assert(spaces(i + 1) == spaces(i as int).push(' '));
            assert(old(s)@ + spaces(i + 1) == (old(s)@ + spaces(i as int)).push(' '));
        }
        i = i + 1;
    }
}

/// Appends the eight-digit strike code of a strike.
fn push_strike_code(code: &mut String, ks: &Vec<char>)
    ensures
        final(code)@ == old(code)@ + strike_code(ks@),
{
    let len = ks.len();
    let p = first_index(ks, '.', 0);
    push_zeros(code, if p < 5 { 5 - p } else { 0 });
    push_range(code, ks, 0, p);
    let cents = if p < len {
        push_range(code, ks, p + 1, len);
        len - (p + 1)
    } else {
        0
    };
    push_zeros(code, if cents < 3 { 3 - cents } else { 0 });
    assert(code@ =~= old(code)@ + strike_code(ks@));
}

fn canonical_symbol_exec(s: &Vec<char>, t: usize, ks: &Vec<char>, e: LedgerDate) -> (code: String)
    requires
        is_option_symbol(s@),
        t == ticker_end(s@),
        ks@ == symbol_strike(s@),
    ensures
        code@ == canonical_symbol(s@, e),
{
    let mut code = String::new();
    push_range(&mut code, s, 0, t);
    push_spaces(&mut code, if t < 6 { 6 - t } else { 0 });
    push_compact_date(&mut code, e);
    push_char(&mut code, s[s.len() - 1]);
    push_strike_code(&mut code, ks);
    assert(code@ =~= canonical_symbol(s@, e));
    code
}

fn display_name_exec(s: &Vec<char>, t: usize, d: &Vec<char>, k: usize, e: LedgerDate) -> (name: String)
    requires
        is_option_symbol(s@),
        t == ticker_end(s@),
        is_option_description(d@),
        k == dollar_index(d@),
    ensures
        name@ == display_name(s@, d@, e),
{
    let n = s.len();
    let m = d.len();
    let call = d[0] == 'C';
    let mut name = String::new();
    if call {
        push_str(&mut name, "CALL");
    } else {
        push_str(&mut name, "PUT");
    }
    push_str(&mut name, " : ");
    let name_from: usize = if call { 5 } else { 4 };
    proof {
        lemma_first_index_bounds(d@, '$', name_start(d@));
    }
    let j = trim_end_at(d, name_from, k);
    push_range(&mut name, d, name_from, j);
    push_str(&mut name, " - ");
    push_range(&mut name, s, 0, t);
    push_char(&mut name, ' ');
    push_month_day_year(&mut name, e);
    push_char(&mut name, ' ');
    push_range(&mut name, s, t + 12, n - 2);
    push_char(&mut name, ' ');
    push_char(&mut name, s[n - 1]);
    assert(name@ =~= display_name(s@, d@, e));
    name
}

/// Encodes an option identifier from its symbol and description, given the dates
/// read from the symbol's and the description's expiration fields.
pub fn encode_option(
    symbol: &str,
    description: &str,
    symbol_expiration: Option<LedgerDate>,
    description_expiration: Option<LedgerDate>,
) -> (r: Result<Option<(String, String)>, OptionMismatch>)
    ensures
        outcome_view(r) == option_outcome(
            symbol@,
            description@,
            symbol_expiration,
            description_expiration,
        ),
{
    let s = chars_of(symbol);
    let t = match match_symbol(&s) {
        None => return Ok(None),
        Some(t) => t,
    };
    let d = chars_of(description);
    let k = match match_description(&d) {
        None => return Err(OptionMismatch::Description),
        Some(k) => k,
    };
    let n = s.len();
    let m = d.len();
    let ks = sub_vec(&s, t + 12, n - 2);
    let kd = sub_vec(&d, k + 1, m - 13);
    if !is_decimal_exec(&ks) || !is_decimal_exec(&kd) {
        return Err(OptionMismatch::StrikeFormat);
    }
    if !same_decimal_exec(&ks, &kd) {
        return Err(OptionMismatch::Strike);
    }
    let e = match (symbol_expiration, description_expiration) {
        (Some(a), Some(b)) => {
            if a != b {
                return Err(OptionMismatch::Expiration);
            }
            b
        },
        _ => return Err(OptionMismatch::ExpirationDate),
    };
    if (d[0] == 'C') != (s[n - 1] == 'C') {
        return Err(OptionMismatch::PutCall);
    }
    let code = canonical_symbol_exec(&s, t, &ks, e);
    let name = display_name_exec(&s, t, &d, k, e);
    Ok(Some((code, name)))
}

/// Recognises and encodes an option identifier, reading the two expiration
/// fields with chrono (`%m/%d/%Y` in the symbol, `%m/%d/%y` in the description).
/// `Ok(None)`: the symbol does not read as an option.
pub fn option_details(symbol: &str, description: &str) -> (r: Result<
    Option<(String, String)>,
    OptionMismatch,
>)
    ensures
        outcome_view(r) == option_outcome_of(symbol@, description@),
{
    let s = chars_of(symbol);
    let d = chars_of(description);
    let sn = s.len();
    let symbol_expiration = match match_symbol(&s) {
        Some(t) => {
            let text = string_of(&s, t + 1, t + 11);
            parse_date(text.as_str(), "%m/%d/%Y")
        },
        None => None,
    };
    let description_expiration = match match_description(&d) {
        Some(_) => {
            let n = d.len();
            let text = string_of(&d, n - 8, n);
            parse_date(text.as_str(), "%m/%d/%y")
        },
        None => None,
    };
    proof {
        if is_option_symbol(symbol@) && is_option_description(description@) {
            assert(symbol_expiration == date_of_triple(
                parsed_date(symbol_date(symbol@), "%m/%d/%Y"@),
            ));
            assert(description_expiration == date_of_triple(
                parsed_date(description_date(description@), "%m/%d/%y"@),
            ));
        }
    }
    encode_option(symbol, description, symbol_expiration, description_expiration)
}

/// Cross-validation: a pair that reads as an option, with decimal strikes, is
/// rejected when only the strikes differ, when only the expirations differ, and
/// when only PUT/CALL disagrees with P/C; each with its own reason.
pub proof fn lemma_cross_validation(
    s: Seq<char>,
    d: Seq<char>,
    symbol_expiration: Option<LedgerDate>,
    description_expiration: Option<LedgerDate>,
)
    requires
        is_option_symbol(s),
        is_option_description(d),
        is_decimal(symbol_strike(s)),
        is_decimal(description_strike(d)),
    ensures
        !same_decimal(symbol_strike(s), description_strike(d)) ==> option_outcome(
            s,
            d,
            symbol_expiration,
            description_expiration,
        ) == OptionOutcome::Mismatch(OptionMismatch::Strike),
        same_decimal(symbol_strike(s), description_strike(d)) && symbol_expiration is Some
            && description_expiration is Some && symbol_expiration != description_expiration
            ==> option_outcome(s, d, symbol_expiration, description_expiration)
            == OptionOutcome::Mismatch(OptionMismatch::Expiration),
        same_decimal(symbol_strike(s), description_strike(d)) && symbol_expiration is Some
            && symbol_expiration == description_expiration && starts_call(d) != (symbol_right(s)
            == 'C') ==> option_outcome(s, d, symbol_expiration, description_expiration)
            == OptionOutcome::Mismatch(OptionMismatch::PutCall),
{
}

/// The codec is a function of the pair: any two of its results for the same
/// symbol and description agree.
pub proof fn lemma_encoding_deterministic(
    symbol: Seq<char>,
    description: Seq<char>,
    r1: Result<Option<(String, String)>, OptionMismatch>,
    r2: Result<Option<(String, String)>, OptionMismatch>,
)
    requires
        outcome_view(r1) == option_outcome_of(symbol, description),
        outcome_view(r2) == option_outcome_of(symbol, description),
    ensures
        outcome_view(r1) == outcome_view(r2),
{
}

proof fn lemma_decimal_digits(n: nat)
    ensures
        forall|i: int| 0 <= i < decimal_text(n).len() ==> is_digit(#[trigger] decimal_text(n)[i]),
        n < 100 ==> decimal_text(n).len() <= 2,
        decimal_text(n).len() >= 1,
        n >= 10 ==> decimal_text(n).len() >= 2,
    decreases n,
{
    if n >= 10 {
        lemma_decimal_digits(n / 10);
        assert forall|i: int| 0 <= i < decimal_text(n).len() implies is_digit(
            #[trigger] decimal_text(n)[i],
        ) by {
            if i < decimal_text(n / 10).len() {
                assert(decimal_text(n)[i] == decimal_text(n / 10)[i]);
            }
        }
    }
}

proof fn lemma_padded_digits(n: nat)
    ensures
        padded_decimal(n, 2).len() >= 2,
        n < 100 ==> padded_decimal(n, 2).len() == 2,
        is_digit(padded_decimal(n, 2)[0]),
        is_digit(padded_decimal(n, 2)[1]),
{
    lemma_decimal_digits(n);
    let z = zeros(2 - decimal_text(n).len());
    assert(padded_decimal(n, 2) == z + decimal_text(n));
    assert forall|i: int| 0 <= i < 2 implies is_digit(#[trigger] padded_decimal(n, 2)[i]) by {
        if i < z.len() {
            assert(padded_decimal(n, 2)[i] == z[i]);
        } else {
            assert(padded_decimal(n, 2)[i] == decimal_text(n)[i - z.len()]);
        }
    }
}

proof fn lemma_upper_run(c: Seq<char>, t: int, i: int)
    requires
        0 <= i <= t < c.len(),
        forall|j: int| 0 <= j < t ==> is_upper(#[trigger] c[j]),
        !is_upper(c[t]),
    ensures
        upper_run_end(c, i) == t,
    decreases t - i,
{
    if i < t {
        lemma_upper_run(c, t, i + 1);
    }
}

/// Re-encoding is stable: a canonical option symbol does not itself read as an
/// option, so the codec hands the canonical symbol and display name back as they
/// are.
pub proof fn lemma_canonical_symbol_is_stable(s: Seq<char>, e: LedgerDate)
    requires
        is_option_symbol(s),
    ensures
        !is_option_symbol(canonical_symbol(s, e)),
{
    let c = canonical_symbol(s, e);
    let t = ticker_end(s);
    let tk = symbol_ticker(s);
    let sp = spaces(6 - tk.len());
    let y = padded_decimal(year_mod_100(e.year as int), 2);
    let m = padded_decimal(e.month as nat, 2);
    let dd = padded_decimal(e.day as nat, 2);
    lemma_padded_digits(year_mod_100(e.year as int));
    lemma_padded_digits(e.month as nat);
    lemma_padded_digits(e.day as nat);
    assert(compact_date_text(e) == y + m + dd);
    assert(c == tk + sp + (y + m + dd) + seq![symbol_right(s)] + strike_code(symbol_strike(s)));
    assert forall|j: int| 0 <= j < t implies is_upper(#[trigger] s[j]) by {
        if !is_upper(s[j]) {
            lemma_upper_prefix(s, 0, j);
        }
    }
    assert(tk.len() == t);
    let rest = sp + (y + m + dd);
    assert forall|j: int| 0 <= j < t implies is_upper(#[trigger] c[j]) by {
        assert(c[j] == tk[j]);
    }
    if t < 6 {
        assert(c[t] == ' ');
        lemma_upper_run(c, t, 0);
        assert(c[t + 1] == (if t < 5 { ' ' } else { y[0] }));
        if t == 5 {
            assert(c[t + 3] == m[0]);
        }
    } else {
        assert(c[t] == y[0]);
        lemma_upper_run(c, t, 0);
    }
}

proof fn lemma_upper_prefix(s: Seq<char>, i: int, j: int)
    requires
        0 <= i <= j < s.len(),
        !is_upper(s[j]),
    ensures
        upper_run_end(s, i) <= j,
    decreases j - i,
{
    if i < j && is_upper(s[i]) {
        lemma_upper_prefix(s, i + 1, j);
    }
}

} // verus!
