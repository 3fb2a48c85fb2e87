//! Byte-level utilities shared by the codec and the command parser:
//! space-separated tokenization and decimal rendering/parsing of `u64`.

use vstd::prelude::*;

verus! {

/// ASCII space, the token separator of both the wire format and local input.
pub open spec fn sp() -> u8 {
    32
}

pub open spec fn is_digit(b: u8) -> bool {
    48 <= b <= 57
}

pub open spec fn all_digits(s: Seq<u8>) -> bool {
    forall|i: int| 0 <= i < s.len() ==> is_digit(#[trigger] s[i])
}

pub open spec fn no_space(s: Seq<u8>) -> bool {
    forall|i: int| 0 <= i < s.len() ==> #[trigger] s[i] != sp()
}

/// The tokens of `s`, split on every single space byte. Mirrors splitting a
/// string on one-character separators: consecutive separators and separators
/// at either end yield empty tokens, and the result is never empty.
pub open spec fn spec_split(s: Seq<u8>) -> Seq<Seq<u8>>
    decreases s.len(),
{
    if s.len() == 0 {
        seq![Seq::<u8>::empty()]
    } else if s[0] == sp() {
        seq![Seq::<u8>::empty()] + spec_split(s.skip(1))
    } else {
        let rest = spec_split(s.skip(1));
        seq![seq![s[0]] + rest[0]] + rest.skip(1)
    }
}

/// The inverse of `spec_split`: tokens joined by single spaces.
pub open spec fn spec_join(ts: Seq<Seq<u8>>) -> Seq<u8>
    decreases ts.len(),
{
    if ts.len() == 0 {
        Seq::<u8>::empty()
    } else if ts.len() == 1 {
        ts[0]
    } else {
        ts[0] + seq![sp()] + spec_join(ts.skip(1))
    }
}

pub proof fn lemma_split_len(s: Seq<u8>)
    ensures
        spec_split(s).len() >= 1,
    decreases s.len(),
{
    if s.len() == 0 {
    } else if s[0] == sp() {
        lemma_split_len(s.skip(1));
    } else {
        lemma_split_len(s.skip(1));
    }
}

/// A token run without spaces splits into itself alone.
pub proof fn lemma_split_single(a: Seq<u8>)
    requires
        no_space(a),
    ensures
        spec_split(a) == seq![a],
    decreases a.len(),
{
    if a.len() == 0 {
        assert(a =~= Seq::<u8>::empty());
        assert(spec_split(a) =~~= seq![a]);
    } else {
        assert(a[0] != sp());
        assert(no_space(a.skip(1)));
        lemma_split_single(a.skip(1));
        let rest = spec_split(a.skip(1));
        assert(rest == seq![a.skip(1)]);
        assert(rest[0] == a.skip(1));
        assert(seq![a[0]] + a.skip(1) =~= a);
        assert(rest.skip(1) =~= Seq::<Seq<u8>>::empty());
        assert(spec_split(a) =~~= seq![a]);
    }
}

/// Splitting a space-free token, a space, and a remainder yields the token
/// followed by the split of the remainder.
pub proof fn lemma_split_concat(a: Seq<u8>, b: Seq<u8>)
    requires
        no_space(a),
    ensures
        spec_split(a + seq![sp()] + b) == seq![a] + spec_split(b),
    decreases a.len(),
{
    let s = a + seq![sp()] + b;
    if a.len() == 0 {
        assert(s.len() > 0 && s[0] == sp());
        assert(s.skip(1) =~= b);
        assert(a =~= Seq::<u8>::empty());
        assert(spec_split(s) =~~= seq![a] + spec_split(b));
    } else {
        assert(s[0] == a[0] && a[0] != sp());
        assert(s.skip(1) =~= a.skip(1) + seq![sp()] + b);
        assert(no_space(a.skip(1)));
        lemma_split_concat(a.skip(1), b);
        let rest = spec_split(s.skip(1));
        assert(rest == seq![a.skip(1)] + spec_split(b));
        lemma_split_len(b);
        assert(rest[0] == a.skip(1));
        assert(seq![s[0]] + rest[0] =~= a);
        assert(rest.skip(1) =~= spec_split(b));
        assert(spec_split(s) =~~= seq![a] + spec_split(b));
    }
}

/// Joining the tokens of `s` gives `s` back, so `spec_split` is injective.
pub proof fn lemma_join_split(s: Seq<u8>)
    ensures
        spec_join(spec_split(s)) == s,
    decreases s.len(),
{
    if s.len() == 0 {
    } else if s[0] == sp() {
        lemma_join_split(s.skip(1));
        lemma_split_len(s.skip(1));
        let ts = spec_split(s);
        assert(ts.len() >= 2);
        assert(ts[0] =~= Seq::<u8>::empty());
        assert(ts.skip(1) =~= spec_split(s.skip(1)));
        assert(spec_join(ts) =~= s);
    } else {
        lemma_join_split(s.skip(1));
        let rest = spec_split(s.skip(1));
        lemma_split_len(s.skip(1));
        let ts = spec_split(s);
        assert(ts[0] == seq![s[0]] + rest[0]);
        if rest.len() == 1 {
            assert(ts =~= seq![seq![s[0]] + rest[0]]);
            assert(spec_join(rest) == rest[0]);
            assert(spec_join(ts) =~= seq![s[0]] + rest[0]);
            assert(spec_join(ts) =~= s);
        } else {
            assert(ts.len() >= 2);
            assert(ts.skip(1) =~= rest.skip(1));
            assert(spec_join(rest) == rest[0] + seq![sp()] + spec_join(rest.skip(1)));
            assert(spec_join(ts) == ts[0] + seq![sp()] + spec_join(ts.skip(1)));
            assert(spec_join(ts) =~= seq![s[0]] + spec_join(rest));
            assert(spec_join(ts) =~= s);
        }
    }
}

/// Joining space-free tokens and splitting again recovers the tokens.
pub proof fn lemma_split_join_tokens(ts: Seq<Seq<u8>>)
    requires
        ts.len() >= 1,
        forall|i: int| 0 <= i < ts.len() ==> no_space(#[trigger] ts[i]),
    ensures
        spec_split(spec_join(ts)) == ts,
    decreases ts.len(),
{
    if ts.len() == 1 {
        lemma_split_single(ts[0]);
        assert(spec_join(ts) == ts[0]);
        assert(spec_split(spec_join(ts)) =~~= ts);
    } else {
        assert(forall|i: int| 0 <= i < ts.skip(1).len() ==> no_space(#[trigger] ts.skip(1)[i]));
        lemma_split_join_tokens(ts.skip(1));
        lemma_split_concat(ts[0], spec_join(ts.skip(1)));
        assert(spec_join(ts) == ts[0] + seq![sp()] + spec_join(ts.skip(1)));
        assert(spec_split(spec_join(ts)) == seq![ts[0]] + ts.skip(1));
        assert(seq![ts[0]] + ts.skip(1) =~~= ts);
    }
}

pub proof fn lemma_join3(t0: Seq<u8>, t1: Seq<u8>, t2: Seq<u8>)
    ensures
        spec_join(seq![t0, t1, t2]) == t0 + seq![sp()] + t1 + seq![sp()] + t2,
{
    let ts = seq![t0, t1, t2];
    assert(ts.skip(1) =~~= seq![t1, t2]);
    assert(seq![t1, t2].skip(1) =~~= seq![t2]);
    assert(spec_join(seq![t2]) == t2);
    assert(spec_join(seq![t1, t2]) == t1 + seq![sp()] + t2);
    assert(spec_join(ts) == t0 + seq![sp()] + (t1 + seq![sp()] + t2));
    assert(t0 + seq![sp()] + (t1 + seq![sp()] + t2) =~= t0 + seq![sp()] + t1 + seq![sp()] + t2);
}

pub proof fn lemma_join4(t0: Seq<u8>, t1: Seq<u8>, t2: Seq<u8>, t3: Seq<u8>)
    ensures
        spec_join(seq![t0, t1, t2, t3]) == t0 + seq![sp()] + t1 + seq![sp()] + t2 + seq![sp()]
            + t3,
{
    let ts = seq![t0, t1, t2, t3];
    assert(ts.skip(1) =~~= seq![t1, t2, t3]);
    lemma_join3(t1, t2, t3);
    assert(spec_join(ts) == t0 + seq![sp()] + (t1 + seq![sp()] + t2 + seq![sp()] + t3));
    assert(t0 + seq![sp()] + (t1 + seq![sp()] + t2 + seq![sp()] + t3) =~= t0 + seq![sp()] + t1
        + seq![sp()] + t2 + seq![sp()] + t3);
}

pub proof fn lemma_split_injective(x: Seq<u8>, y: Seq<u8>)
    requires
        spec_split(x) == spec_split(y),
    ensures
        x == y,
{
    lemma_join_split(x);
    lemma_join_split(y);
}

/// The value of a digit string read as a base-10 numeral.
pub open spec fn digits_value(s: Seq<u8>) -> int
    decreases s.len(),
{
    if s.len() == 0 {
        0
    } else {
        digits_value(s.drop_last()) * 10 + (s.last() - 48)
    }
}

/// The canonical decimal numeral of `n`: nonempty, digits only, and no
/// leading zero except for `n == 0` itself.
pub open spec fn dec_digits(n: nat) -> Seq<u8>
    decreases n,
{
    if n < 10 {
        seq![(48 + n) as u8]
    } else {
        dec_digits(n / 10).push((48 + n % 10) as u8)
    }
}

pub proof fn lemma_dec_digits_props(n: nat)
    ensures
        dec_digits(n).len() >= 1,
        all_digits(dec_digits(n)),
        no_space(dec_digits(n)),
        digits_value(dec_digits(n)) == n,
        dec_digits(n).len() == 1 || dec_digits(n)[0] != 48,
        n == 0 ==> dec_digits(n) == seq![48u8],
    decreases n,
{
    if n < 10 {
        let d = dec_digits(n);
        assert(d == seq![(48 + n) as u8]);
        assert(d.drop_last() =~= Seq::<u8>::empty());
        assert(d.last() == (48 + n) as u8);
        assert(digits_value(Seq::<u8>::empty()) == 0);
        assert(digits_value(d) == 0 * 10 + ((48 + n) as u8 - 48));
        assert(digits_value(d) == n);
    } else {
        lemma_dec_digits_props(n / 10);
        let d = dec_digits(n);
        let p = dec_digits(n / 10);
        assert(d == p.push((48 + n % 10) as u8));
        assert(d.drop_last() =~= p);
        assert(d.last() == (48 + n % 10) as u8);
        assert(digits_value(d) == digits_value(p) * 10 + n % 10);
        assert((n / 10) * 10 + n % 10 == n) by {
            vstd::arithmetic::div_mod::lemma_fundamental_div_mod(n as int, 10);
        }
        assert(digits_value(d) == n);
        assert(d[0] == p[0]);
        assert(n / 10 >= 1);
        if p.len() == 1 {
            assert(p.drop_last() =~= Seq::<u8>::empty());
            assert(p.last() == p[0]);
            assert(digits_value(Seq::<u8>::empty()) == 0);
            assert(digits_value(p) == 0 * 10 + (p[0] - 48));
            assert(p[0] - 48 == n / 10);
            assert(p[0] != 48);
        }
        assert(forall|i: int| 0 <= i < d.len() ==> is_digit(#[trigger] d[i]));
    }
}

/// A digit string in canonical form is the numeral of its own value:
/// decimal rendering is injective and canonical parsing inverts it.
pub proof fn lemma_canonical_digits_unique(s: Seq<u8>, n: nat)
    requires
        all_digits(s),
        s.len() >= 1,
        s.len() == 1 || s[0] != 48,
        digits_value(s) == n,
    ensures
        s == dec_digits(n),
    decreases s.len(),
{
    lemma_digits_value_bounds(s);
    if s.len() == 1 {
        assert(s.drop_last() =~= Seq::<u8>::empty());
        assert(s.last() == s[0]);
        assert(digits_value(Seq::<u8>::empty()) == 0);
        assert(digits_value(s) == 0 * 10 + (s[0] - 48));
        assert(n < 10);
        assert(dec_digits(n) =~= seq![(48 + n) as u8]);
        assert(s =~= dec_digits(n));
    } else {
        let p = s.drop_last();
        assert(p[0] == s[0] && p[0] != 48);
        assert(all_digits(p)) by {
            assert(forall|i: int| 0 <= i < p.len() ==> is_digit(#[trigger] p[i]));
        }
        lemma_digits_value_bounds(p);
        assert(digits_value(p) >= 1);
        let d = (s.last() - 48) as int;
        assert(0 <= d < 10);
        assert(n == digits_value(p) * 10 + d);
        assert(n >= 10);
        assert(digits_value(p) == n / 10 && d == n % 10) by {
            vstd::arithmetic::div_mod::lemma_fundamental_div_mod_converse(
                n as int,
                10,
                digits_value(p),
                d,
            );
        }
        lemma_canonical_digits_unique(p, (n / 10) as nat);
        assert(dec_digits(n) == dec_digits(n / 10).push((48 + n % 10) as u8));
        assert(s =~= p.push(s.last()));
        assert(s =~= dec_digits(n));
    }
}

/// Every digit string has a nonnegative value, and a nonzero leading digit
/// forces a positive value.
pub proof fn lemma_digits_value_bounds(s: Seq<u8>)
    requires
        all_digits(s),
    ensures
        digits_value(s) >= 0,
        s.len() >= 1 && s[0] != 48 ==> digits_value(s) >= 1,
    decreases s.len(),
{
    if s.len() == 0 {
    } else {
        let p = s.drop_last();
        assert(all_digits(p)) by {
            assert(forall|i: int| 0 <= i < p.len() ==> is_digit(#[trigger] p[i]));
        }
        lemma_digits_value_bounds(p);
        assert(is_digit(s.last()));
        if s.len() >= 2 && s[0] != 48 {
            assert(p[0] == s[0]);
            assert(digits_value(p) >= 1);
        }
    }
}

/// Extending a digit string never decreases its value.
pub proof fn lemma_digits_value_prefix(s: Seq<u8>, i: int)
    requires
        all_digits(s),
        0 <= i <= s.len(),
    ensures
        digits_value(s) >= digits_value(s.take(i)),
    decreases s.len() - i,
{
    if i == s.len() {
        assert(s.take(i) =~= s);
    } else {
        lemma_digits_value_prefix(s, i + 1);
        let t = s.take(i + 1);
        assert(t.drop_last() =~= s.take(i));
        assert(t.last() == s[i]);
        assert(all_digits(s.take(i))) by {
            assert(forall|j: int| 0 <= j < i ==> is_digit(#[trigger] s.take(i)[j]));
        }
        lemma_digits_value_bounds(s.take(i));
        assert(digits_value(t) == digits_value(s.take(i)) * 10 + (s[i] - 48));
        assert(digits_value(t) >= digits_value(s.take(i)));
    }
}

/// Byte-slice equality, decided element by element.
pub fn bytes_eq(a: &[u8], b: &[u8]) -> (r: bool)
    ensures
        r == (a@ == b@),
{
    if a.len() != b.len() {
        return false;
    }
    let mut i: usize = 0;
    while i < a.len()
        invariant
            a@.len() == b@.len(),
            i <= a@.len(),
            forall|j: int| 0 <= j < i ==> a@[j] == b@[j],
        decreases a@.len() - i,
    {
        if a[i] != b[i] {
            return false;
        }
        i += 1;
    }
    proof {
        assert(a@ =~= b@);
    }
    true
}

/// Splits `s` on single space bytes; the executable twin of `spec_split`.
pub fn split_bytes(s: &[u8]) -> (r: Vec<Vec<u8>>)
    ensures
        r@.len() == spec_split(s@).len(),
        forall|i: int| 0 <= i < r@.len() ==> #[trigger] r@[i]@ == spec_split(s@)[i],
{
    let ghost ts = spec_split(s@);
    let mut done: Vec<Vec<u8>> = Vec::new();
    let mut cur: Vec<u8> = Vec::new();
    let mut i: usize = 0;
    proof {
        assert(s@.skip(0) =~= s@);
    }
    while i < s.len()
        invariant
            i <= s@.len(),
            ts == spec_split(s@),
            spec_split(s@.skip(i as int)).len() >= 1,
            done@.len() + 1 + (spec_split(s@.skip(i as int)).len() - 1) == ts.len(),
            forall|j: int| 0 <= j < done@.len() ==> #[trigger] done@[j]@ == ts[j],
            cur@ + spec_split(s@.skip(i as int))[0] == ts[done@.len() as int],
            forall|j: int|
                0 <= j < spec_split(s@.skip(i as int)).len() - 1
                    ==> #[trigger] spec_split(s@.skip(i as int))[j + 1] == ts[done@.len() + 1 + j],
        decreases s@.len() - i,
    {
        proof {
            lemma_split_len(s@.skip(i as int));
            lemma_split_len(s@.skip(i + 1));
            assert(s@.skip(i as int).len() > 0);
            assert(s@.skip(i as int)[0] == s@[i as int]);
            assert(s@.skip(i as int).skip(1) =~= s@.skip(i + 1));
        }
        let ghost old_rest = spec_split(s@.skip(i as int));
        let ghost new_rest = spec_split(s@.skip(i + 1));
        let ghost dl = done@.len() as int;
        if s[i] == 32 {
            proof {
                assert(old_rest == seq![Seq::<u8>::empty()] + new_rest);
                assert(old_rest[0] =~= Seq::<u8>::empty());
                assert(cur@ + old_rest[0] =~= cur@);
                assert(ts[dl] == cur@);
                assert(new_rest[0] == old_rest[1]);
                assert(old_rest[1] == ts[dl + 1]);
            }
            done.push(cur);
            cur = Vec::new();
            proof {
                assert(cur@ + new_rest[0] =~= new_rest[0]);
                assert(cur@ + new_rest[0] == ts[dl + 1]);
                assert forall|j: int| 0 <= j < new_rest.len() - 1 implies #[trigger] new_rest[j
                    + 1] == ts[dl + 2 + j] by {
                    assert(old_rest[j + 2] == new_rest[j + 1]);
                    assert(old_rest[(j + 1) + 1] == ts[dl + 1 + (j + 1)]);
                }
            }
        } else {
            proof {
                assert(old_rest == seq![seq![s@[i as int]] + new_rest[0]] + new_rest.skip(1));
                assert(old_rest[0] == seq![s@[i as int]] + new_rest[0]);
            }
            let c = s[i];
            cur.push(c);
            proof {
                assert(cur@ + new_rest[0] =~= ts[dl]);
                assert forall|j: int| 0 <= j < new_rest.len() - 1 implies #[trigger] new_rest[j
                    + 1] == ts[dl + 1 + j] by {
                    assert(old_rest[j + 1] == new_rest.skip(1)[j]);
                    assert(new_rest.skip(1)[j] == new_rest[j + 1]);
                    assert(old_rest[j + 1] == ts[dl + 1 + j]);
                }
            }
        }
        i += 1;
    }
    proof {
        assert(s@.skip(i as int) =~= Seq::<u8>::empty());
        assert(spec_split(s@.skip(i as int)) =~= seq![Seq::<u8>::empty()]);
        assert(cur@ + Seq::<u8>::empty() =~= cur@);
        assert(done@.len() + 1 == ts.len());
    }
    done.push(cur);
    done
}

/// Parses a nonempty all-digit token as a `u64`; `None` exactly when the
/// token is empty, holds a non-digit byte, or encodes a value above
/// `u64::MAX`. Leading zeros are accepted, as a lenient operand parser.
pub fn parse_u64_digits(s: &[u8]) -> (r: Option<u64>)
    ensures
        r matches Some(n) ==> s@.len() >= 1 && all_digits(s@) && digits_value(s@) == n,
        r is None ==> !(s@.len() >= 1 && all_digits(s@) && digits_value(s@) <= u64::MAX),
{
    if s.len() == 0 {
        return None;
    }
    let mut acc: u64 = 0;
    let mut i: usize = 0;
    proof {
        assert(s@.take(0) =~= Seq::<u8>::empty());
    }
    while i < s.len()
        invariant
            i <= s@.len(),
            s@.len() >= 1,
            all_digits(s@.take(i as int)),
            acc == digits_value(s@.take(i as int)),
        decreases s@.len() - i,
    {
        let c = s[i];
        if c < 48 || c > 57 {
            proof {
                assert(!is_digit(s@[i as int]));
            }
            return None;
        }
        let d: u64 = (c - 48) as u64;
        proof {
            let t = s@.take(i + 1);
            assert(t.drop_last() =~= s@.take(i as int));
            assert(t.last() == s@[i as int]);
            assert(all_digits(t)) by {
                assert(forall|j: int| 0 <= j < t.len() ==> is_digit(#[trigger] t[j]));
            }
            assert(digits_value(t) == acc * 10 + d);
        }
        if acc > (u64::MAX - d) / 10 {
            proof {
                assert(acc * 10 + d > u64::MAX);
                if all_digits(s@) {
                    lemma_digits_value_prefix(s@, i + 1);
                    assert(digits_value(s@) > u64::MAX);
                }
            }
            return None;
        }
        acc = acc * 10 + d;
        i += 1;
    }
    proof {
        assert(s@.take(i as int) =~= s@);
    }
    Some(acc)
}

/// Parses a token as the canonical decimal numeral of a `u64`: digits only,
/// no leading zero. `None` exactly when no `u64` renders to the token.
pub fn parse_canonical_u64(s: &[u8]) -> (r: Option<u64>)
    ensures
        r matches Some(n) ==> s@ == dec_digits(n as nat),
        r is None ==> forall|n: u64| s@ != dec_digits(n as nat),
{
    match parse_u64_digits(s) {
        None => {
            proof {
                assert forall|n: u64| s@ != dec_digits(n as nat) by {
                    lemma_dec_digits_props(n as nat);
                }
            }
            None
        },
        Some(v) => {
            if s.len() == 1 || s[0] != 48 {
                proof {
                    lemma_canonical_digits_unique(s@, v as nat);
                }
                Some(v)
            } else {
                proof {
                    assert forall|n: u64| s@ != dec_digits(n as nat) by {
                        lemma_dec_digits_props(n as nat);
                    }
                }
                None
            }
        },
    }
}

/// Renders `n` as its canonical decimal numeral.
pub fn u64_to_dec(n: u64) -> (r: Vec<u8>)
    ensures
        r@ == dec_digits(n as nat),
    decreases n,
{
    if n < 10 {
        let mut v: Vec<u8> = Vec::new();
        v.push(48 + n as u8);
        proof {
            assert(v@ =~= dec_digits(n as nat));
        }
        v
    } else {
        let mut v = u64_to_dec(n / 10);
        v.push(48 + (n % 10) as u8);
        proof {
            assert(v@ =~= dec_digits(n as nat));
        }
        v
    }
}

/// ASCII lower-casing of a single byte.
pub open spec fn lower_byte(b: u8) -> u8 {
    if 65 <= b <= 90 {
        (b + 32) as u8
    } else {
        b
    }
}

pub open spec fn spec_lower(s: Seq<u8>) -> Seq<u8> {
    Seq::new(s.len(), |i: int| lower_byte(s[i]))
}

/// ASCII lower-casing of a byte string, for case-insensitive commands.
pub fn lower_bytes(s: &[u8]) -> (r: Vec<u8>)
    ensures
        r@ == spec_lower(s@),
{
    let mut v: Vec<u8> = Vec::new();
    let mut i: usize = 0;
    while i < s.len()
        invariant
            i <= s@.len(),
            v@.len() == i,
            forall|j: int| 0 <= j < i ==> #[trigger] v@[j] == lower_byte(s@[j]),
        decreases s@.len() - i,
    {
        let c = s[i];
        if c >= 65 && c <= 90 {
            v.push(c + 32);
        } else {
            v.push(c);
        }
        i += 1;
    }
    proof {
        assert(v@ =~= spec_lower(s@));
    }
    v
}

} // verus!
