//! Texts: comparison that ignores case, the order of texts by their
//! characters, and numbers in decimal digits.

use vstd::prelude::*;

verus! {

/// Lower-case form of a text, as the Unicode case mapping defines it.
pub uninterp spec fn lowercase_of(s: Seq<char>) -> Seq<char>;

/// Calls `str::to_lowercase` of the standard library. The result is the
/// Unicode lower-case mapping of the argument, a function of the text alone;
/// the contract names it `lowercase_of` and claims nothing further about it.
#[verifier::external_body]
pub(crate) fn lowercase(s: &str) -> (r: String)
    ensures
        r@ == lowercase_of(s@),
{
    s.to_lowercase()
}

/// Two texts are the same when case is ignored.
pub open spec fn same_ignoring_case(a: Seq<char>, b: Seq<char>) -> bool {
    lowercase_of(a) == lowercase_of(b)
}

/// Executable form of [`same_ignoring_case`].
pub fn eq_ignoring_case(a: &str, b: &str) -> (same: bool)
    ensures
        same == same_ignoring_case(a@, b@),
{
    let la = lowercase(a);
    let lb = lowercase(b);
    la == lb
}

/// Strict lexicographic order of texts by the code points of their characters.
pub open spec fn text_lt(a: Seq<char>, b: Seq<char>) -> bool {
    exists|k: int| #[trigger] differs_at(a, b, k)
}

/// `a` and `b` agree on their first `k` characters, and at position `k`
/// either `a` ends while `b` goes on, or `a` has the smaller character.
pub open spec fn differs_at(a: Seq<char>, b: Seq<char>, k: int) -> bool {
    &&& 0 <= k <= a.len()
    &&& k < b.len()
    &&& a.subrange(0, k) == b.subrange(0, k)
    &&& (k == a.len() || a[k] < b[k])
}

/// How two texts stand to each other in the lexicographic order.
#[derive(Clone, Copy, Debug, PartialEq, Eq, Structural)]
pub enum Place {
    Before,
    Same,
    After,
}

/// No text precedes itself, and no two texts precede each other.
pub proof fn lemma_text_lt_strict(a: Seq<char>, b: Seq<char>)
    ensures
        !text_lt(a, a),
        text_lt(a, b) ==> !text_lt(b, a) && a != b,
{
    if text_lt(a, a) {
        let k = choose|k: int| #[trigger] differs_at(a, a, k);
        assert(false);
    }
    if text_lt(a, b) && text_lt(b, a) {
        let k = choose|k: int| #[trigger] differs_at(a, b, k);
        let m = choose|m: int| #[trigger] differs_at(b, a, m);
        if k < m {
            assert(b.subrange(0, m)[k] == a.subrange(0, m)[k]);
        } else if m < k {
            assert(a.subrange(0, k)[m] == b.subrange(0, k)[m]);
        }
        assert(false);
    }
}

/// The lexicographic order is transitive.
pub proof fn lemma_text_lt_transitive(a: Seq<char>, b: Seq<char>, c: Seq<char>)
    requires
        text_lt(a, b),
        text_lt(b, c),
    ensures
        text_lt(a, c),
{
    let k = choose|k: int| #[trigger] differs_at(a, b, k);
    let m = choose|m: int| #[trigger] differs_at(b, c, m);
    let n = if k <= m { k } else { m };
    assert forall|i: int| 0 <= i < n implies a[i] == c[i] by {
        assert(a.subrange(0, k)[i] == b.subrange(0, k)[i]);
        assert(b.subrange(0, m)[i] == c.subrange(0, m)[i]);
    }
    assert(a.subrange(0, n) =~= c.subrange(0, n));
    if k < m {
        assert(b.subrange(0, m)[k] == c.subrange(0, m)[k]);
    } else if m < k {
        assert(a.subrange(0, k)[m] == b.subrange(0, k)[m]);
    }
    assert(differs_at(a, c, n));
}

/// Of two texts that agree on their first `k` characters, one precedes the
/// other or they are equal.
proof fn lemma_total_from(a: Seq<char>, b: Seq<char>, k: int)
    requires
        0 <= k <= a.len(),
        k <= b.len(),
        a.subrange(0, k) == b.subrange(0, k),
    ensures
        text_lt(a, b) || a == b || text_lt(b, a),
    decreases a.len() - k,
{
    if k == a.len() && k == b.len() {
        assert(a =~= a.subrange(0, k));
        assert(b =~= b.subrange(0, k));
    } else if k == a.len() {
        assert(differs_at(a, b, k));
    } else if k == b.len() {
        assert(differs_at(b, a, k));
    } else if a[k] == b[k] {
        assert(a.subrange(0, k + 1) =~= a.subrange(0, k).push(a[k]));
        assert(b.subrange(0, k + 1) =~= b.subrange(0, k).push(b[k]));
        lemma_total_from(a, b, k + 1);
    } else if a[k] < b[k] {
        assert(differs_at(a, b, k));
    } else {
        assert(differs_at(b, a, k));
    }
}

/// The lexicographic order is total.
pub proof fn lemma_text_lt_total(a: Seq<char>, b: Seq<char>)
    ensures
        text_lt(a, b) || a == b || text_lt(b, a),
{
    assert(a.subrange(0, 0) =~= b.subrange(0, 0));
    lemma_total_from(a, b, 0);
}

/// Compares two texts character by character.
pub fn place_of(a: &str, b: &str) -> (p: Place)
    ensures
        p == Place::Before <==> text_lt(a@, b@),
        p == Place::Same <==> a@ == b@,
        p == Place::After <==> text_lt(b@, a@),
{
    let n = a.unicode_len();
    let m = b.unicode_len();
    let mut i: usize = 0;
    while i < n && i < m
        invariant
            n == a@.len(),
            m == b@.len(),
            i <= n,
            i <= m,
            a@.subrange(0, i as int) == b@.subrange(0, i as int),
        decreases n - i,
    {
        let x = a.get_char(i);
        let y = b.get_char(i);
        if x != y {
            proof {
                lemma_text_lt_strict(a@, b@);
                lemma_text_lt_strict(b@, a@);
                assert(a@[i as int] != b@[i as int]);
            }
            if x < y {
                assert(differs_at(a@, b@, i as int));
                return Place::Before;
            } else {
                assert(differs_at(b@, a@, i as int));
                return Place::After;
            }
        }
        assert(a@.subrange(0, i + 1) =~= a@.subrange(0, i as int).push(a@[i as int]));
        assert(b@.subrange(0, i + 1) =~= b@.subrange(0, i as int).push(b@[i as int]));
        i = i + 1;
    }
    proof {
        lemma_text_lt_strict(a@, b@);
        lemma_text_lt_strict(b@, a@);
    }
    if n == m {
        assert(a@ =~= a@.subrange(0, i as int));
        assert(b@ =~= b@.subrange(0, i as int));
        Place::Same
    } else if n < m {
        assert(differs_at(a@, b@, i as int));
        Place::Before
    } else {
        assert(differs_at(b@, a@, i as int));
        Place::After
    }
}

/// The character of the decimal digit `d`.
pub open spec fn digit(d: int) -> char {
    "0123456789"@[d]
}

/// The decimal digits of a number that is not negative, without leading zeros.
pub open spec fn decimal_text(n: int) -> Seq<char>
    decreases n,
{
    if n < 10 {
        seq![digit(n)]
    } else {
        decimal_text(n / 10).push(digit(n % 10))
    }
}

/// The decimal digits of `n` behind as many zeros as fill `width` characters.
pub open spec fn padded_decimal_text(n: int, width: int) -> Seq<char> {
    Seq::new((width - decimal_text(n).len()) as nat, |i: int| '0') + decimal_text(n)
}

/// Formats a number with the standard library's `Display` for `u128`, which
/// writes it in decimal digits without leading zeros.
#[verifier::external_body]
pub(crate) fn decimal(n: u128) -> (r: String)
    ensures
        r@ == decimal_text(n as int),
{
    n.to_string()
}

} // verus!
