//! Text building blocks: decimal and hexadecimal rendering, digit runs,
//! and the few `str`/`String` operations of std that vstd leaves unspecified.
use vstd::prelude::*;
use vstd::utf8::{decode_utf8, valid_utf8};

verus! {

/// The character of an ASCII decimal digit.
pub open spec fn is_digit(c: char) -> bool {
    '0' <= c && c <= '9'
}

/// The digit character for a value below ten.
pub open spec fn digit_char(d: nat) -> char {
    (48 + d) as char
}

/// The value of a digit character.
pub open spec fn digit_value(c: char) -> nat {
    (c as int - 48) as nat
}

/// The lower-case hexadecimal digit for a value below sixteen.
pub open spec fn hex_char(d: nat) -> char {
    if d < 10 { (48 + d) as char } else { (87 + d) as char }
}

/// Decimal rendering of a natural number, without leading zeros.
pub open spec fn decimal(n: nat) -> Seq<char>
    decreases n,
{
    if n < 10 {
        seq![digit_char(n)]
    } else {
        decimal(n / 10).push(digit_char(n % 10))
    }
}

/// Lower-case hexadecimal rendering of a natural number, without leading zeros.
pub open spec fn hex(n: nat) -> Seq<char>
    decreases n,
{
    if n < 16 {
        seq![hex_char(n)]
    } else {
        hex(n / 16).push(hex_char(n % 16))
    }
}

/// The number that a run of decimal digits spells.
pub open spec fn digits_value(t: Seq<char>) -> nat
    decreases t.len(),
{
    if t.len() == 0 {
        0
    } else {
        digits_value(t.drop_last()) * 10 + digit_value(t.last())
    }
}

/// Every character of `t` is a decimal digit.
pub open spec fn all_digits(t: Seq<char>) -> bool {
    forall|i: int| 0 <= i < t.len() ==> is_digit(#[trigger] t[i])
}

/// A digit run as `decimal` writes it: not empty, and no leading zero
/// unless the run is the single digit `0`.
pub open spec fn canonical_digits(t: Seq<char>) -> bool {
    &&& t.len() >= 1
    &&& all_digits(t)
    &&& (t.len() > 1 ==> t[0] != '0')
}

/// Whether a character is an ASCII decimal digit.
pub fn is_digit_char(c: char) -> (b: bool)
    ensures
        b == is_digit(c),
{
    '0' <= c && c <= '9'
}

/// `String::push`. Claimed: the character is added at the end of the text.
#[verifier::external_body]
pub(crate) fn push_char(s: &mut String, c: char)
    ensures
        final(s)@ == old(s)@.push(c),
{
    s.push(c);
}

/// Appends the decimal rendering of `n`.
pub fn push_decimal(s: &mut String, n: u64)
    ensures
        final(s)@ == old(s)@ + decimal(n as nat),
    decreases n,
{
    if n >= 10 {
        push_decimal(s, n / 10);
    }
    let d: u8 = (n % 10) as u8;
    let c: char = (48u8 + d) as char;
    push_char(s, c);
    proof {
        if n < 10 {
            assert(decimal(n as nat) == seq![digit_char(n as nat)]);
        }
    }
}


/// Appends the lower-case hexadecimal rendering of `n`.
pub fn push_hex(s: &mut String, n: u16)
    ensures
        final(s)@ == old(s)@ + hex(n as nat),
    decreases n,
{
    if n >= 16 {
        push_hex(s, n / 16);
    }
    let d: u8 = (n % 16) as u8;
    let c: char = if d < 10 { (48u8 + d) as char } else { (87u8 + d) as char };
    push_char(s, c);
    proof {
        if n < 16 {
            assert(hex(n as nat) == seq![hex_char(n as nat)]);
        }
    }
}

/// The characters of a string slice, in order.
pub fn chars_of(s: &str) -> (v: Vec<char>)
    ensures
        v@ == s@,
{
    broadcast use vstd::string::group_string_axioms;
    let mut v: Vec<char> = Vec::new();
    for c in it: s.chars()
        invariant
            it.seq() == s@,
            v@ == it.seq().take(it.index() as int),
    {
        v.push(c);
    }
    v
}


/// Whether two texts are the same, character for character.
pub fn same_text(a: &str, b: &str) -> (r: bool)
    ensures
        r == (a@ == b@),
{
    let x = chars_of(a);
    let y = chars_of(b);
    if x.len() != y.len() {
        return false;
    }
    let mut i: usize = 0;
    while i < x.len()
        invariant
            x@ == a@,
            y@ == b@,
            x@.len() == y@.len(),
            i <= x@.len(),
            forall|j: int| 0 <= j < i ==> x@[j] == y@[j],
        decreases x@.len() - i,
    {
        if x[i] != y[i] {
            return false;
        }
        i = i + 1;
    }
    assert(x@ =~= y@);
    true
}

/// Builds a string from its characters.
pub fn string_from_chars(v: &[char]) -> (s: String)
    ensures
        s@ == v@,
{
    let mut s = String::new();
    let mut i: usize = 0;
    while i < v.len()
        invariant
            i <= v.len(),
            s@ == v@.take(i as int),
        decreases v.len() - i,
    {
        push_char(&mut s, v[i]);
        i = i + 1;
        assert(s@ == v@.take(i as int));
    }
    assert(v@.take(v.len() as int) == v@);
    s
}

/// Reading a digit character back gives its value.
pub proof fn lemma_digit_roundtrip(d: nat)
    requires
        d < 10,
    ensures
        digit_value(digit_char(d)) == d,
        is_digit(digit_char(d)),
        (digit_char(d) == '0') == (d == 0),
{
    assert(((48 + d) as char) as int == 48 + d);
}

/// A digit character is the character of its value.
pub proof fn lemma_digit_char_of_value(c: char)
    requires
        is_digit(c),
    ensures
        digit_char(digit_value(c)) == c,
        digit_value(c) < 10,
{
    assert((c as int) as char == c);
}

/// Hexadecimal is written in lower case, most significant digit first: a
/// number below sixteen is its one digit (`0` to `9`, then `a` to `f`), and
/// a larger one is the digits of its sixteenth followed by its last digit.
pub proof fn law_hex_digits(n: nat)
    ensures
        n < 10 ==> hex(n) == seq![(48 + n) as char],
        10 <= n < 16 ==> hex(n) == seq![(97 + (n - 10)) as char],
        n >= 16 ==> hex(n) == hex(n / 16) + hex(n % 16),
{
    if n >= 16 {
        assert(hex(n % 16) == seq![hex_char(n % 16)]);
        assert(hex(n / 16).push(hex_char(n % 16)) =~= hex(n / 16) + seq![hex_char(n % 16)]);
    }
}

/// Decimal is written most significant digit first: a number below ten is
/// its one digit, and a larger one is the digits of its tenth followed by
/// its last digit.
pub proof fn law_decimal_digits(n: nat)
    ensures
        n < 10 ==> decimal(n) == seq![(48 + n) as char],
        n >= 10 ==> decimal(n) == decimal(n / 10) + decimal(n % 10),
{
    if n >= 10 {
        assert(decimal(n % 10) == seq![digit_char(n % 10)]);
        assert(decimal(n / 10).push(digit_char(n % 10)) =~= decimal(n / 10) + seq![digit_char(n % 10)]);
    }
}

/// `decimal(n)` is a canonical run of digits whose value is `n`.
pub proof fn lemma_decimal(n: nat)
    ensures
        canonical_digits(decimal(n)),
        digits_value(decimal(n)) == n,
        n < 10 ==> decimal(n).len() == 1,
        n < 100 ==> decimal(n).len() <= 2,
        n < 1000 ==> decimal(n).len() <= 3,
        n >= 10 ==> decimal(n).len() >= 2,
    decreases n,
{
    if n < 10 {
        lemma_digit_roundtrip(n);
        assert(decimal(n).drop_last() =~= Seq::<char>::empty());
        assert(digits_value(decimal(n).drop_last()) == 0);
    } else {
        lemma_decimal(n / 10);
        let t = decimal(n);
        assert(t.drop_last() == decimal(n / 10));
        assert(t.last() == digit_char(n % 10));
        lemma_digit_roundtrip(n % 10);
        assert(n == (n / 10) * 10 + n % 10) by(nonlinear_arith);
        assert(t[0] == decimal(n / 10)[0]);
    }
}

/// A run of digits with a non-zero first digit spells a positive number.
pub proof fn lemma_digits_value_positive(t: Seq<char>)
    requires
        t.len() >= 1,
        all_digits(t),
        t[0] != '0',
    ensures
        digits_value(t) >= 1,
    decreases t.len(),
{
    if t.len() > 1 {
        assert(t.drop_last()[0] == t[0]);
        lemma_digits_value_positive(t.drop_last());
    }
}

/// A canonical run of digits is the decimal rendering of its value.
pub proof fn lemma_canonical_is_decimal(t: Seq<char>)
    requires
        canonical_digits(t),
    ensures
        decimal(digits_value(t)) == t,
    decreases t.len(),
{
    let v = digits_value(t);
    if t.len() == 1 {
        assert(t.drop_last().len() == 0);
        assert(t.last() == t[0]);
        assert(digits_value(t.drop_last()) == 0);
        assert(v == digit_value(t[0]));
        lemma_digit_char_of_value(t[0]);
        assert(digit_char(v) == t[0]);
        assert(decimal(v) =~= t);
    } else {
        let p = t.drop_last();
        assert(p[0] == t[0]);
        assert(canonical_digits(p));
        lemma_canonical_is_decimal(p);
        lemma_digits_value_positive(p);
        let a = digits_value(p);
        let d = digit_value(t.last());
        assert(v == a * 10 + d);
        assert(v / 10 == a && v % 10 == d) by(nonlinear_arith)
            requires v == a * 10 + d, d < 10;
        assert(decimal(v) =~= t);
    }
}

/// The decimal rendering is one-to-one.
pub proof fn lemma_decimal_injective(a: nat, b: nat)
    requires
        decimal(a) == decimal(b),
    ensures
        a == b,
{
    lemma_decimal(a);
    lemma_decimal(b);
}


/// Two digit runs that start at the same place and each end at the end of
/// the text or before a non-digit are the same run; if both are decimal
/// renderings, they render the same number.
pub proof fn lemma_maximal_runs_agree(v: Seq<char>, start: int, e1: int, e2: int, x: nat, y: nat)
    requires
        0 <= start < e1 <= v.len(),
        start < e2 <= v.len(),
        v.subrange(start, e1) == decimal(x),
        v.subrange(start, e2) == decimal(y),
        e1 == v.len() || !is_digit(v[e1]),
        e2 == v.len() || !is_digit(v[e2]),
    ensures
        e1 == e2,
        x == y,
{
    lemma_decimal(x);
    lemma_decimal(y);
    if e1 < e2 {
        assert(v.subrange(start, e2)[e1 - start] == v[e1]);
    }
    if e2 < e1 {
        assert(v.subrange(start, e1)[e2 - start] == v[e2]);
    }
    lemma_decimal_injective(x, y);
}


/// The pattern `p` stands in `h` at index `i`.
pub open spec fn occurs_at(h: Seq<char>, p: Seq<char>, i: int) -> bool {
    0 <= i && i + p.len() <= h.len() && h.subrange(i, i + p.len()) == p
}

/// `i` is where `p` first stands in `h`.
pub open spec fn is_first_occurrence(h: Seq<char>, p: Seq<char>, i: int) -> bool {
    occurs_at(h, p, i) && forall|j: int| 0 <= j < i ==> !occurs_at(h, p, j)
}

/// Where `p` first stands in `h`, if anywhere.
pub open spec fn first_occurrence(h: Seq<char>, p: Seq<char>) -> Option<int> {
    if exists|i: int| occurs_at(h, p, i) {
        Some(choose|i: int| is_first_occurrence(h, p, i))
    } else {
        None
    }
}

/// Whether `p` stands anywhere in `h`.
pub open spec fn contains_text(h: Seq<char>, p: Seq<char>) -> bool {
    exists|i: int| occurs_at(h, p, i)
}

/// Where `p` first stands in `h`, if anywhere.
pub fn index_of(h: &[char], p: &[char]) -> (r: Option<usize>)
    ensures
        match r {
            Some(i) => first_occurrence(h@, p@) == Some(i as int),
            None => first_occurrence(h@, p@) is None,
        },
        r matches Some(i) ==> is_first_occurrence(h@, p@, i as int),
        r is None ==> !contains_text(h@, p@),
{
    let hl = h.len();
    let pl = p.len();
    if pl > hl {
        proof {
            assert forall|i: int| !occurs_at(h@, p@, i) by {}
        }
        return None;
    }
    let mut i: usize = 0;
    while i <= hl - pl
        invariant
            hl == h@.len(),
            pl == p@.len(),
            pl <= hl,
            i <= hl - pl + 1,
            forall|j: int| 0 <= j < i ==> !occurs_at(h@, p@, j),
        decreases hl - i,
    {
        let mut k: usize = 0;
        let mut same = true;
        while k < pl
            invariant
                hl == h@.len(),
                pl == p@.len(),
                i + pl <= hl,
                k <= pl,
                same == (forall|m: int| 0 <= m < k ==> h@[i + m] == p@[m]),
            decreases pl - k,
        {
            if h[i + k] != p[k] {
                same = false;
            }
            k = k + 1;
        }
        if same {
            proof {
                assert(h@.subrange(i as int, i + pl) =~= p@);
                assert(is_first_occurrence(h@, p@, i as int));
                assert(exists|j: int| occurs_at(h@, p@, j));
                let c = choose|j: int| is_first_occurrence(h@, p@, j);
                if c < i {
                } else if c > i {
                    assert(!occurs_at(h@, p@, i as int));
                }
            }
            return Some(i);
        }
        proof {
            assert(!same);
            let m = choose|m: int| 0 <= m < pl && h@[i + m] != p@[m];
            if occurs_at(h@, p@, i as int) {
                assert(h@.subrange(i as int, i + pl)[m] == h@[i + m]);
            }
        }
        i = i + 1;
    }
    proof {
        assert forall|j: int| !occurs_at(h@, p@, j) by {
            if 0 <= j && j + pl <= hl {
                assert(j < i);
            }
        }
    }
    None
}

/// Whether `p` stands anywhere in `h`.
pub fn contains_chars(h: &[char], p: &[char]) -> (b: bool)
    ensures
        b == contains_text(h@, p@),
{
    index_of(h, p).is_some()
}

/// The longest run of decimal digits at the start of `t`.
pub open spec fn leading_digits(t: Seq<char>) -> Seq<char>
    decreases t.len(),
{
    if t.len() > 0 && is_digit(t[0]) {
        seq![t[0]] + leading_digits(t.drop_first())
    } else {
        Seq::empty()
    }
}

/// What `u64` parsing in std makes of a run of digits: its value when it is
/// not empty and fits in a `u64`.
pub open spec fn u64_of_digits(t: Seq<char>) -> Option<u64> {
    if t.len() > 0 && all_digits(t) && digits_value(t) <= u64::MAX {
        Some(digits_value(t) as u64)
    } else {
        None
    }
}

/// Reads the longest run of digits in `t` from index `from` on, as `u64`
/// parsing in std would: its value, when the run is not empty and the value
/// fits.
pub fn leading_u64(t: &[char], from: usize) -> (r: Option<u64>)
    requires
        from <= t@.len(),
    ensures
        r == u64_of_digits(leading_digits(t@.skip(from as int))),
{
    let mut i: usize = from;
    let mut val: u64 = 0;
    let mut fits = true;
    let ghost rest = t@.skip(from as int);
    proof {
        lemma_leading_digits_shape(rest);
    }
    while i < t.len() && is_digit_char(t[i])
        invariant
            from <= i <= t@.len(),
            rest == t@.skip(from as int),
            all_digits(t@.subrange(from as int, i as int)),
            t@.subrange(from as int, i as int) == rest.take(i - from),
            leading_digits(rest) == rest.take(leading_digits(rest).len() as int),
            forall|k: int| 0 <= k < i - from ==> is_digit(rest[k]),
            fits ==> val == digits_value(t@.subrange(from as int, i as int)),
            !fits ==> digits_value(t@.subrange(from as int, i as int)) > u64::MAX,
            i - from <= leading_digits(rest).len(),
            forall|k: int| 0 <= k < leading_digits(rest).len() ==> is_digit(rest[k]),
            leading_digits(rest).len() < rest.len() ==> !is_digit(rest[leading_digits(rest).len() as int]),
        decreases t@.len() - i,
    {
        let d: u64 = (t[i] as u64) - 48;
        proof {
            let sub = t@.subrange(from as int, i + 1);
            assert(sub.drop_last() =~= t@.subrange(from as int, i as int));
            assert(sub.last() == t@[i as int]);
            assert(rest[i - from] == t@[i as int]);
            if i - from == leading_digits(rest).len() {
                assert(!is_digit(rest[i - from]));
            }
        }
        if fits {
            match val.checked_mul(10) {
                Some(m) => match m.checked_add(d) {
                    Some(n) => {
                        val = n;
                    },
                    None => {
                        fits = false;
                    },
                },
                None => {
                    fits = false;
                },
            }
        }
        i = i + 1;
        proof {
            assert(t@.subrange(from as int, i as int) =~= rest.take(i - from));
        }
    }
    proof {
        let run = t@.subrange(from as int, i as int);
        let n = leading_digits(rest).len();
        if i - from < n {
            assert(is_digit(rest[i - from]));
            assert(rest[i - from] == t@[i as int]);
        }
        assert(i - from == n);
        assert(run =~= leading_digits(rest));
    }
    if i == from || !fits {
        None
    } else {
        Some(val)
    }
}

/// `leading_digits(t)` is a prefix of `t` made of digits, followed by the
/// end of `t` or by a non-digit.
pub proof fn lemma_leading_digits_shape(t: Seq<char>)
    ensures
        leading_digits(t).len() <= t.len(),
        leading_digits(t) == t.take(leading_digits(t).len() as int),
        forall|k: int| 0 <= k < leading_digits(t).len() ==> is_digit(#[trigger] t[k]),
        leading_digits(t).len() < t.len() ==> !is_digit(t[leading_digits(t).len() as int]),
    decreases t.len(),
{
    if t.len() > 0 && is_digit(t[0]) {
        lemma_leading_digits_shape(t.drop_first());
        let r = leading_digits(t.drop_first());
        assert(leading_digits(t) =~= t.take(leading_digits(t).len() as int));
        assert forall|k: int| 0 <= k < leading_digits(t).len() implies is_digit(#[trigger] t[k]) by {
            if k > 0 {
                assert(t[k] == t.drop_first()[k - 1]);
            }
        }
        if leading_digits(t).len() < t.len() {
            assert(t[leading_digits(t).len() as int] == t.drop_first()[r.len() as int]);
        }
    } else {
        assert(t.take(0) =~= Seq::<char>::empty());
    }
}

/// What `String::from_utf8_lossy` makes of some bytes: their text, with
/// U+FFFD in place of each ill-formed sequence.
pub uninterp spec fn lossy_text(bytes: Seq<u8>) -> Seq<char>;

/// `String::from_utf8_lossy`. Claimed: the text is `lossy_text` of the bytes,
/// and it is the text they encode when they are valid UTF-8.
#[verifier::external_body]
pub(crate) fn utf8_lossy(bytes: &[u8]) -> (s: String)
    ensures
        s@ == lossy_text(bytes@),
        valid_utf8(bytes@) ==> s@ == decode_utf8(bytes@),
{
    String::from_utf8_lossy(bytes).into_owned()
}


/// The part `from..to` of a byte slice.
pub fn byte_range(s: &[u8], from: usize, to: usize) -> (r: &[u8])
    requires
        from <= to <= s@.len(),
    ensures
        r@ == s@.subrange(from as int, to as int),
{
    &s[from..to]
}

} // verus!
