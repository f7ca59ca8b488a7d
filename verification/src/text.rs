//! Text helpers: decimal numerals, code-point order of strings, lower-casing
//! and the hyphenated form of UUIDs.
use vstd::prelude::*;
use vstd::arithmetic::power::pow;
use vstd::string::*;

verus! {

/// The ASCII digit for `d` (`d < 10`).
pub open spec fn digit_char(d: nat) -> char {
    (48 + d) as char
}

/// The decimal numeral of a natural number, without leading zeros.
pub open spec fn decimal(n: nat) -> Seq<char>
    decreases n,
{
    if n < 10 {
        seq![digit_char(n)]
    } else {
        decimal(n / 10).push(digit_char(n % 10))
    }
}

/// The decimal numeral of an integer: a minus sign before negative ones.
pub open spec fn signed_decimal(x: int) -> Seq<char> {
    if x < 0 {
        seq!['-'] + decimal((-x) as nat)
    } else {
        decimal(x as nat)
    }
}

/// Code-point order of strings, the order of `str`'s `Ord`
/// (UTF-8 bytes compare as their code points do).
pub open spec fn lex_le(a: Seq<char>, b: Seq<char>) -> bool
    decreases a.len(),
{
    if a.len() == 0 {
        true
    } else if b.len() == 0 {
        false
    } else if a[0] != b[0] {
        (a[0] as int) < (b[0] as int)
    } else {
        lex_le(a.drop_first(), b.drop_first())
    }
}

/// The lower-case form that `str::to_lowercase` gives of a string.
pub uninterp spec fn lowercase(s: Seq<char>) -> Seq<char>;

/// The lower-case hexadecimal digit for `d` (`d < 16`).
pub open spec fn hex_char(d: int) -> char {
    if d < 10 {
        (48 + d) as char
    } else {
        (87 + d) as char
    }
}

/// The 32 hexadecimal digits of a 128-bit number, most significant first.
pub open spec fn hex_digits(v: u128) -> Seq<char> {
    Seq::new(32, |k: int| hex_char((v as int / pow(16, (31 - k) as nat)) % 16))
}

/// The hyphenated form of a UUID: 8-4-4-4-12 lower-case hexadecimal digits.
pub open spec fn hyphenated(v: u128) -> Seq<char> {
    let h = hex_digits(v);
    h.subrange(0, 8) + seq!['-'] + h.subrange(8, 12) + seq!['-'] + h.subrange(12, 16) + seq!['-']
        + h.subrange(16, 20) + seq!['-'] + h.subrange(20, 32)
}

/// Appends one character to a string (`String::push`).
#[verifier::external_body]
pub(crate) fn push_char(s: &mut String, c: char)
    ensures
        final(s)@ == old(s)@.push(c),
{
    s.push(c)
}

/// `str::to_lowercase`: the result is named [`lowercase`], a function of the
/// argument alone; which characters it maps is not stated.
#[verifier::external_body]
pub(crate) fn to_lowercase(s: &str) -> (res: String)
    ensures
        res@ == lowercase(s@),
{
    s.to_lowercase()
}

/// The `Display` form of `uuid::Uuid::from_u128(v)`, which the uuid crate
/// writes as the hyphenated lower-case hexadecimal of `v`, most significant
/// byte first.
#[verifier::external_body]
pub(crate) fn uuid_string(v: u128) -> (res: String)
    ensures
        res@ == hyphenated(v),
{
    uuid::Uuid::from_u128(v).to_string()
}

fn digit(d: u64) -> (c: char)
    requires
        d < 10,
    ensures
        c == digit_char(d as nat),
{
    match d {
        0 => '0',
        1 => '1',
        2 => '2',
        3 => '3',
        4 => '4',
        5 => '5',
        6 => '6',
        7 => '7',
        8 => '8',
        _ => '9',
    }
}

/// The decimal numeral of `n`.
pub fn decimal_u64(n: u64) -> (res: String)
    ensures
        res@ == decimal(n as nat),
    decreases n,
{
    if n < 10 {
        let mut s = String::new();
        push_char(&mut s, digit(n));
        s
    } else {
        let mut s = decimal_u64(n / 10);
        push_char(&mut s, digit(n % 10));
        s
    }
}

/// The decimal numeral of a count, as `usize`'s `Display` writes it.
pub fn decimal_usize(n: usize) -> (res: String)
    ensures
        res@ == decimal(n as nat),
{
    decimal_u64(n as u64)
}

/// The decimal numeral of `x`, as `i64`'s `Display` writes it.
pub fn decimal_i64(x: i64) -> (res: String)
    ensures
        res@ == signed_decimal(x as int),
{
    if x < 0 {
        let magnitude: u64 = (0i128 - (x as i128)) as u64;
        let mut s = String::new();
        push_char(&mut s, '-');
        let digits = decimal_u64(magnitude);
        s.append(digits.as_str());
        s
    } else {
        decimal_u64(x as u64)
    }
}

/// Whether `a` comes before `b` or equals it in code-point order.
pub fn str_le(a: &str, b: &str) -> (res: bool)
    ensures
        res == lex_le(a@, b@),
{
    let la = a.unicode_len();
    let lb = b.unicode_len();
    let mut i: usize = 0;
    assert(a@.skip(0) =~= a@);
    assert(b@.skip(0) =~= b@);
    while i < la && i < lb
        invariant
            la == a@.len(),
            lb == b@.len(),
            i <= la,
            i <= lb,
            lex_le(a@.skip(i as int), b@.skip(i as int)) == lex_le(a@, b@),
        decreases la - i,
    {
        let ca = a.get_char(i);
        let cb = b.get_char(i);
        if ca != cb {
            return ca < cb;
        }
        assert(a@.skip(i as int).drop_first() =~= a@.skip(i + 1));
        assert(b@.skip(i as int).drop_first() =~= b@.skip(i + 1));
        i = i + 1;
    }
    i == la
}

/// Whether two strings hold the same characters.
pub fn str_eq(a: &str, b: &str) -> (res: bool)
    ensures
        res == (a@ == b@),
{
    let sa = String::from_str(a);
    let sb = String::from_str(b);
    sa == sb
}

/// Any two strings are ordered one way or the other.
pub proof fn lemma_lex_le_total(a: Seq<char>, b: Seq<char>)
    ensures
        lex_le(a, b) || lex_le(b, a),
    decreases a.len(),
{
    if a.len() > 0 && b.len() > 0 {
        if a[0] == b[0] {
            lemma_lex_le_total(a.drop_first(), b.drop_first());
        } else {
            assert(a[0] as int != b[0] as int);
        }
    }
}

/// `lex_le` is transitive.
pub proof fn lemma_lex_le_trans(a: Seq<char>, b: Seq<char>, c: Seq<char>)
    requires
        lex_le(a, b),
        lex_le(b, c),
    ensures
        lex_le(a, c),
    decreases a.len(),
{
    if a.len() > 0 && b.len() > 0 && c.len() > 0 && a[0] == b[0] && b[0] == c[0] {
        lemma_lex_le_trans(a.drop_first(), b.drop_first(), c.drop_first());
    }
}

/// Two strings each before or equal to the other are the same string.
pub proof fn lemma_lex_le_antisym(a: Seq<char>, b: Seq<char>)
    requires
        lex_le(a, b),
        lex_le(b, a),
    ensures
        a == b,
    decreases a.len(),
{
    if a.len() > 0 && b.len() > 0 {
        if a[0] == b[0] {
            lemma_lex_le_antisym(a.drop_first(), b.drop_first());
            assert(a =~= seq![a[0]] + a.drop_first());
            assert(b =~= seq![b[0]] + b.drop_first());
        }
    }
}

/// A sort key: two strings compared in code-point order, then a number.
pub struct SortKey {
    pub primary: String,
    pub secondary: String,
    pub tag: u128,
}

/// What a [`SortKey`] means in specifications.
pub struct SortKeyView {
    pub primary: Seq<char>,
    pub secondary: Seq<char>,
    pub tag: u128,
}

impl View for SortKey {
    type V = SortKeyView;

    open spec fn view(&self) -> SortKeyView {
        SortKeyView { primary: self.primary@, secondary: self.secondary@, tag: self.tag }
    }
}

/// The order of sort keys: by the first string, then the second, then the number.
pub open spec fn key_le(a: SortKeyView, b: SortKeyView) -> bool {
    if a.primary != b.primary {
        lex_le(a.primary, b.primary)
    } else if a.secondary != b.secondary {
        lex_le(a.secondary, b.secondary)
    } else {
        a.tag <= b.tag
    }
}

/// Whether key `a` comes before key `b` or equals it.
pub fn key_le_exec(a: &SortKey, b: &SortKey) -> (res: bool)
    ensures
        res == key_le(a@, b@),
{
    if !str_eq(a.primary.as_str(), b.primary.as_str()) {
        str_le(a.primary.as_str(), b.primary.as_str())
    } else if !str_eq(a.secondary.as_str(), b.secondary.as_str()) {
        str_le(a.secondary.as_str(), b.secondary.as_str())
    } else {
        a.tag <= b.tag
    }
}

/// `key_le` is reflexive.
pub proof fn lemma_key_le_refl(a: SortKeyView)
    ensures
        key_le(a, a),
{
}

/// Any two keys are ordered one way or the other.
pub proof fn lemma_key_le_total(a: SortKeyView, b: SortKeyView)
    ensures
        key_le(a, b) || key_le(b, a),
{
    lemma_lex_le_total(a.primary, b.primary);
    lemma_lex_le_total(a.secondary, b.secondary);
}

/// `key_le` is transitive.
pub proof fn lemma_key_le_trans(a: SortKeyView, b: SortKeyView, c: SortKeyView)
    requires
        key_le(a, b),
        key_le(b, c),
    ensures
        key_le(a, c),
{
    if a.primary != b.primary && b.primary != c.primary {
        lemma_lex_le_trans(a.primary, b.primary, c.primary);
        if a.primary == c.primary {
            lemma_lex_le_antisym(a.primary, b.primary);
        }
    } else if a.primary == b.primary && b.primary == c.primary {
        if a.secondary != b.secondary && b.secondary != c.secondary {
            lemma_lex_le_trans(a.secondary, b.secondary, c.secondary);
            if a.secondary == c.secondary {
                lemma_lex_le_antisym(a.secondary, b.secondary);
            }
        }
    }
}

/// Two keys each before or equal to the other are the same key.
pub proof fn lemma_key_le_antisym(a: SortKeyView, b: SortKeyView)
    requires
        key_le(a, b),
        key_le(b, a),
    ensures
        a == b,
{
    if a.primary != b.primary {
        lemma_lex_le_antisym(a.primary, b.primary);
    } else if a.secondary != b.secondary {
        lemma_lex_le_antisym(a.secondary, b.secondary);
    }
}

} // verus!
