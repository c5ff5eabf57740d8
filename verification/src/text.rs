//! Byte-level text helpers shared by the parser and the serializer: ASCII
//! character classes, exact byte-string equality, byte searching, and decimal
//! conversion in both directions.

use vstd::prelude::*;

verus! {

/// A byte is ASCII whitespace: space, tab, line feed, form feed or carriage
/// return.
pub open spec fn is_ws(b: u8) -> bool {
    b == 32 || b == 9 || b == 10 || b == 12 || b == 13
}

/// A byte is an ASCII decimal digit.
pub open spec fn is_digit(b: u8) -> bool {
    48 <= b && b <= 57
}

/// Whether `b` is ASCII whitespace.
pub fn is_whitespace(b: u8) -> (r: bool)
    ensures
        r == is_ws(b),
{
    b == 32 || b == 9 || b == 10 || b == 12 || b == 13
}

/// Exact equality of two byte strings.
pub fn bytes_eq(a: &[u8], b: &[u8]) -> (r: bool)
    ensures
        r <==> a@ == b@,
{
    if a.len() != b.len() {
        return false;
    }
    let mut i: usize = 0;
    while i < a.len()
        invariant
            a@.len() == b@.len(),
            0 <= i <= a@.len(),
            forall|j: int| 0 <= j < i ==> a@[j] == b@[j],
        decreases a@.len() - i,
    {
        if a[i] != b[i] {
            return false;
        }
        i = i + 1;
    }
    proof {
        assert(a@ =~= b@);
    }
    true
}

/// Position of the first occurrence of `b` in `s` at or after `from`.
pub open spec fn spec_find_byte(s: Seq<u8>, from: int, b: u8) -> Option<int>
    decreases s.len() - from when 0 <= from
{
    if from >= s.len() {
        None
    } else if s[from] == b {
        Some(from)
    } else {
        spec_find_byte(s, from + 1, b)
    }
}

/// What `spec_find_byte` returns, stated without recursion.
pub proof fn lemma_find_byte(s: Seq<u8>, from: int, b: u8)
    requires
        0 <= from,
    ensures
        match spec_find_byte(s, from, b) {
            Some(i) => from <= i < s.len() && s[i] == b && forall|j: int|
                from <= j < i ==> s[j] != b,
            None => forall|j: int| from <= j < s.len() ==> s[j] != b,
        },
    decreases s.len() - from,
{
    if from < s.len() && s[from] != b {
        lemma_find_byte(s, from + 1, b);
    }
}

/// Finds the first occurrence of `b` in `s` at or after `from`.
pub fn find_byte(s: &[u8], from: usize, b: u8) -> (r: Option<usize>)
    requires
        from <= s@.len(),
    ensures
        match r {
            Some(i) => from <= i < s@.len() && spec_find_byte(s@, from as int, b) == Some(
                i as int,
            ),
            None => spec_find_byte(s@, from as int, b) is None,
        },
{
    let mut i: usize = from;
    while i < s.len()
        invariant
            from <= i <= s@.len(),
            spec_find_byte(s@, from as int, b) == spec_find_byte(s@, i as int, b),
        decreases s@.len() - i,
    {
        if s[i] == b {
            return Some(i);
        }
        i = i + 1;
    }
    None
}

/// Position of the first byte at or after `from` that is not ASCII
/// whitespace; the length of `s` if all remaining bytes are whitespace.
pub open spec fn spec_skip_ws(s: Seq<u8>, from: int) -> int
    decreases s.len() - from when 0 <= from
{
    if from >= s.len() {
        s.len() as int
    } else if is_ws(s[from]) {
        spec_skip_ws(s, from + 1)
    } else {
        from
    }
}

/// What `spec_skip_ws` returns, stated without recursion.
pub proof fn lemma_skip_ws(s: Seq<u8>, from: int)
    requires
        0 <= from <= s.len(),
    ensures
        ({
            let i = spec_skip_ws(s, from);
            from <= i <= s.len() && (i < s.len() ==> !is_ws(s[i])) && forall|j: int|
                from <= j < i ==> is_ws(s[j])
        }),
    decreases s.len() - from,
{
    if from < s.len() && is_ws(s[from]) {
        lemma_skip_ws(s, from + 1);
    }
}

/// Skips ASCII whitespace in `s` starting at `from`.
pub fn skip_whitespace(s: &[u8], from: usize) -> (r: usize)
    requires
        from <= s@.len(),
    ensures
        r == spec_skip_ws(s@, from as int),
        from <= r <= s@.len(),
{
    let mut i: usize = from;
    while i < s.len()
        invariant
            from <= i <= s@.len(),
            spec_skip_ws(s@, from as int) == spec_skip_ws(s@, i as int),
        decreases s@.len() - i,
    {
        if !is_whitespace(s[i]) {
            return i;
        }
        i = i + 1;
    }
    i
}

/// Every byte of `s` is ASCII whitespace.
pub open spec fn ws_only(s: Seq<u8>) -> bool {
    forall|i: int| 0 <= i < s.len() ==> is_ws(s[i])
}

/// `pat` occurs in `s` as a contiguous run.
pub open spec fn contains_bytes(s: Seq<u8>, pat: Seq<u8>) -> bool {
    exists|i: int|
        0 <= i && i + pat.len() <= s.len() && #[trigger] s.subrange(i, i + pat.len() as int) == pat
}

/// Whether `pat` occurs in `s` as a contiguous run.
pub fn contains_sub(s: &[u8], pat: &[u8]) -> (r: bool)
    ensures
        r == contains_bytes(s@, pat@),
{
    if pat.len() > s.len() {
        return false;
    }
    let mut i: usize = 0;
    let last = s.len() - pat.len();
    loop
        invariant
            0 <= i <= last,
            last == s@.len() - pat@.len(),
            pat@.len() <= s@.len(),
            s@.len() <= usize::MAX,
            forall|j: int| 0 <= j < i ==> #[trigger] s@.subrange(j, j + pat@.len() as int) != pat@,
        ensures
            forall|j: int|
                0 <= j <= last ==> #[trigger] s@.subrange(j, j + pat@.len() as int) != pat@,
        decreases last - i,
    {
        if bytes_eq(vstd::slice::slice_subrange(s, i, i + pat.len()), pat) {
            return true;
        }
        if i == last {
            break;
        }
        i = i + 1;
    }
    false
}

/// What holds in either half of a concatenation holds in the whole.
pub proof fn lemma_contains_concat(a: Seq<u8>, b: Seq<u8>, pat: Seq<u8>)
    ensures
        contains_bytes(a, pat) ==> contains_bytes(a + b, pat),
        contains_bytes(b, pat) ==> contains_bytes(a + b, pat),
{
    if contains_bytes(a, pat) {
        let i = choose|i: int|
            0 <= i && i + pat.len() <= a.len() && #[trigger] a.subrange(i, i + pat.len() as int)
                == pat;
        assert((a + b).subrange(i, i + pat.len() as int) =~= a.subrange(i, i + pat.len() as int));
    }
    if contains_bytes(b, pat) {
        let i = choose|i: int|
            0 <= i && i + pat.len() <= b.len() && #[trigger] b.subrange(i, i + pat.len() as int)
                == pat;
        assert((a + b).subrange(a.len() + i, a.len() + i + pat.len() as int) =~= b.subrange(
            i,
            i + pat.len() as int,
        ));
    }
}

/// Numeric value of a run of ASCII digits, most significant first.
pub open spec fn digits_val(s: Seq<u8>) -> nat
    decreases s.len()
{
    if s.len() == 0 {
        0
    } else {
        (digits_val(s.drop_last()) * 10 + (s.last() - 48)) as nat
    }
}

/// Every byte of `s` is an ASCII digit.
pub open spec fn all_digits(s: Seq<u8>) -> bool {
    forall|i: int| 0 <= i < s.len() ==> is_digit(s[i])
}

/// The value of a decimal, read as Rust reads an unsigned integer: an
/// optional leading `+`, then at least one digit, and a value that fits.
pub open spec fn spec_parse_u64(s: Seq<u8>) -> Option<u64> {
    let t = if s.len() > 0 && s[0] == 43 {
        s.skip(1)
    } else {
        s
    };
    if t.len() > 0 && all_digits(t) && digits_val(t) <= u64::MAX {
        Some(digits_val(t) as u64)
    } else {
        None
    }
}

/// A digit run's value only grows as more digits follow.
proof fn lemma_digits_val_prefix(s: Seq<u8>, n: int)
    requires
        0 <= n <= s.len(),
        all_digits(s),
    ensures
        digits_val(s.take(n)) <= digits_val(s),
    decreases s.len() - n,
{
    if n < s.len() {
        lemma_digits_val_prefix(s, n + 1);
        assert(s.take(n + 1).drop_last() =~= s.take(n));
        assert(s.take(n + 1).last() == s[n]);
        assert(digits_val(s.take(n)) <= digits_val(s.take(n + 1)));
    } else {
        assert(s.take(n) =~= s);
    }
}

/// Parses a decimal unsigned integer, as Rust's unsigned `parse` does:
/// an optional leading `+`, then one or more ASCII digits; anything else,
/// an empty digit run, or a value over `u64::MAX` is rejected.
pub fn parse_u64(s: &[u8]) -> (r: Option<u64>)
    ensures
        r == spec_parse_u64(s@),
{
    let start: usize = if s.len() > 0 && s[0] == 43 {
        1
    } else {
        0
    };
    let ghost t: Seq<u8> = if s@.len() > 0 && s@[0] == 43 {
        s@.skip(1)
    } else {
        s@
    };
    proof {
        assert(t =~= s@.subrange(start as int, s@.len() as int));
    }
    if s.len() == start {
        return None;
    }
    let mut val: u64 = 0;
    let mut i: usize = start;
    while i < s.len()
        invariant
            start <= i <= s@.len(),
            start < s@.len(),
            t == s@.subrange(start as int, s@.len() as int),
            t == (if s@.len() > 0 && s@[0] == 43 {
                s@.skip(1)
            } else {
                s@
            }),
            all_digits(t.take(i - start)),
            val == digits_val(t.take(i - start)),
        decreases s@.len() - i,
    {
        let b = s[i];
        if !(48 <= b && b <= 57) {
            proof {
                assert(!all_digits(t)) by {
                    assert(!is_digit(t[i - start]));
                }
            }
            return None;
        }
        let d: u64 = (b - 48) as u64;
        proof {
            assert(t.take(i - start + 1).drop_last() =~= t.take(i - start));
            assert(t.take(i - start + 1).last() == s@[i as int]);
        }
        if val > (u64::MAX - d) / 10 {
            proof {
                if all_digits(t) {
                    assert(digits_val(t.take(i - start + 1)) == val * 10 + d);
                    assert(val * 10 + d > u64::MAX) by (nonlinear_arith)
                        requires
                            val > (u64::MAX - d) / 10,
                            0 <= d <= 9,
                    ;
                    lemma_digits_val_prefix(t, i - start + 1);
                }
            }
            return None;
        }
        val = val * 10 + d;
        i = i + 1;
    }
    proof {
        assert(t.take(i - start) =~= t);
    }
    Some(val)
}

/// Decimal digits of `n`, most significant first, with no sign and no
/// leading zero (a lone zero for 0).
pub open spec fn spec_u64_decimal(n: nat) -> Seq<u8>
    decreases n
{
    if n < 10 {
        seq![(48 + n) as u8]
    } else {
        spec_u64_decimal(n / 10).push((48 + n % 10) as u8)
    }
}

/// Writes `n` in decimal.
pub fn u64_to_decimal(n: u64) -> (r: Vec<u8>)
    ensures
        r@ == spec_u64_decimal(n as nat),
    decreases n,
{
    if n < 10 {
        let mut v: Vec<u8> = Vec::new();
        v.push(48 + (n as u8));
        proof {
            assert(v@ =~= spec_u64_decimal(n as nat));
        }
        v
    } else {
        let mut v = u64_to_decimal(n / 10);
        v.push(48 + ((n % 10) as u8));
        v
    }
}

/// Position of the first ASCII whitespace byte at or after `from`; the
/// length of `s` if none remains. The run before it is a token.
pub open spec fn spec_token_end(s: Seq<u8>, from: int) -> int
    decreases s.len() - from when 0 <= from
{
    if from >= s.len() {
        s.len() as int
    } else if is_ws(s[from]) {
        from
    } else {
        spec_token_end(s, from + 1)
    }
}

/// What `spec_token_end` returns, stated without recursion.
pub proof fn lemma_token_end(s: Seq<u8>, from: int)
    requires
        0 <= from <= s.len(),
    ensures
        ({
            let i = spec_token_end(s, from);
            from <= i <= s.len() && (i < s.len() ==> is_ws(s[i])) && forall|j: int|
                from <= j < i ==> !is_ws(s[j])
        }),
    decreases s.len() - from,
{
    if from < s.len() && !is_ws(s[from]) {
        lemma_token_end(s, from + 1);
    }
}

/// Scans to the end of the token starting at `from`: the first whitespace
/// byte at or after it.
pub fn token_end(s: &[u8], from: usize) -> (r: usize)
    requires
        from <= s@.len(),
    ensures
        r == spec_token_end(s@, from as int),
        from <= r <= s@.len(),
{
    let mut i: usize = from;
    while i < s.len()
        invariant
            from <= i <= s@.len(),
            spec_token_end(s@, from as int) == spec_token_end(s@, i as int),
        decreases s@.len() - i,
    {
        if is_whitespace(s[i]) {
            return i;
        }
        i = i + 1;
    }
    i
}

/// The decimal digits of `n` are digits, carry no sign, and read back as
/// exactly `n`.
proof fn lemma_decimal_digits(n: nat)
    ensures
        all_digits(spec_u64_decimal(n)),
        digits_val(spec_u64_decimal(n)) == n,
        spec_u64_decimal(n).len() > 0,
        is_digit(spec_u64_decimal(n)[0]),
    decreases n,
{
    if n < 10 {
        let s = spec_u64_decimal(n);
        assert(s.drop_last() =~= Seq::<u8>::empty());
        assert(digits_val(Seq::<u8>::empty()) == 0);
        assert(s.last() == (48 + n) as u8);
    } else {
        lemma_decimal_digits(n / 10);
        let d = spec_u64_decimal(n / 10);
        let s = spec_u64_decimal(n);
        assert(s.drop_last() =~= d);
        assert(s.last() == (48 + n % 10) as u8);
        assert(forall|i: int| 0 <= i < s.len() ==> is_digit(s[i])) by {
            assert(forall|i: int| 0 <= i < d.len() ==> s[i] == d[i]);
        }
        assert(digits_val(s) == digits_val(d) * 10 + n % 10);
        assert(digits_val(d) * 10 + n % 10 == n) by {
            vstd::arithmetic::div_mod::lemma_fundamental_div_mod(n as int, 10);
        }
    }
}

/// Writing a value in decimal and reading the decimal back yields exactly
/// the value: the two directions of the conversion agree.
pub proof fn lemma_decimal_round_trip(n: u64)
    ensures
        spec_parse_u64(spec_u64_decimal(n as nat)) == Some(n),
{
    lemma_decimal_digits(n as nat);
    let s = spec_u64_decimal(n as nat);
    assert(s[0] != 43);
}

} // verus!
