//! Byte-level machinery shared by the encoder and the decoder: the 8-bit
//! wrapping checksum, big-endian integer views, and the 0xAA/0x55
//! byte-stuffing that keeps frame payloads from imitating the preamble.

use vstd::prelude::*;

verus! {

/// 8-bit wrapping sum of a byte sequence; the protocol's checksum.
pub open spec fn sum8(s: Seq<u8>) -> u8
    decreases s.len(),
{
    if s.len() == 0 {
        0u8
    } else {
        ((sum8(s.drop_last()) + s.last()) % 256) as u8
    }
}

/// The value of a byte sequence read as a big-endian unsigned integer.
pub open spec fn be_val(s: Seq<u8>) -> nat
    decreases s.len(),
{
    if s.len() == 0 {
        0nat
    } else {
        (be_val(s.drop_last()) * 256 + s.last()) as nat
    }
}

/// 256 to the n-th power; bounds `be_val`.
pub open spec fn pow256(n: nat) -> nat
    decreases n,
{
    if n == 0 {
        1nat
    } else {
        256 * pow256((n - 1) as nat)
    }
}

/// The value of a two-byte big-endian quantity.
pub open spec fn be16(hi: u8, lo: u8) -> int {
    hi * 256 + lo
}

/// The minimal big-endian encoding of `m`: no leading zero byte, at least one
/// byte (zero encodes as a single 0x00).
pub open spec fn min_be(m: nat) -> Seq<u8>
    decreases m,
{
    if m < 256 {
        seq![m as u8]
    } else {
        min_be(m / 256).push((m % 256) as u8)
    }
}

/// How many bytes `min_be(m)` takes.
pub open spec fn byte_len(m: nat) -> nat
    decreases m,
{
    if m < 256 {
        1nat
    } else {
        1 + byte_len(m / 256)
    }
}

pub proof fn lemma_min_be_val(m: nat)
    ensures
        be_val(min_be(m)) == m,
        min_be(m).len() == byte_len(m),
        min_be(m).len() >= 1,
    decreases m,
{
    if m < 256 {
        assert(be_val(Seq::<u8>::empty()) == 0);
        assert(seq![m as u8].drop_last() =~= Seq::<u8>::empty());
    } else {
        lemma_min_be_val(m / 256);
        assert(min_be(m).drop_last() =~= min_be(m / 256));
        assert(min_be(m).last() == (m % 256) as u8);
        assert(be_val(min_be(m)) == be_val(min_be(m / 256)) * 256 + (m % 256) as u8);
        assert((m / 256) * 256 + m % 256 == m) by (nonlinear_arith);
    }
}

pub proof fn lemma_byte_len_le(m: nat, n: nat)
    requires
        m <= n,
    ensures
        byte_len(m) <= byte_len(n),
    decreases n,
{
    if n >= 256 && m >= 256 {
        lemma_byte_len_le(m / 256, n / 256);
    } else if n >= 256 {
        lemma_byte_len_le(0, n / 256);
    }
}

pub proof fn lemma_byte_len_u64(m: nat)
    requires
        m < 0x1_0000_0000_0000_0000,
    ensures
        byte_len(m) <= 8,
{
    lemma_byte_len_le(m, 0xffff_ffff_ffff_ffff);
    assert(byte_len(0xffnat) == 1);
    assert(byte_len(0xffffnat) == 2);
    assert(byte_len(0xff_ffffnat) == 3);
    assert(byte_len(0xffff_ffffnat) == 4);
    assert(byte_len(0xff_ffff_ffffnat) == 5);
    assert(byte_len(0xffff_ffff_ffffnat) == 6);
    assert(byte_len(0xff_ffff_ffff_ffffnat) == 7);
    assert(byte_len(0xffff_ffff_ffff_ffffnat) == 8);
}

pub proof fn lemma_pow256_values()
    ensures
        pow256(0) == 1,
        pow256(1) == 0x100,
        pow256(2) == 0x1_0000,
        pow256(3) == 0x100_0000,
        pow256(4) == 0x1_0000_0000,
        pow256(5) == 0x100_0000_0000,
        pow256(6) == 0x1_0000_0000_0000,
        pow256(7) == 0x100_0000_0000_0000,
        pow256(8) == 0x1_0000_0000_0000_0000,
{
    assert(pow256(0) == 1);
    assert(pow256(1) == 0x100);
    assert(pow256(2) == 0x1_0000);
    assert(pow256(3) == 0x100_0000);
    assert(pow256(4) == 0x1_0000_0000);
    assert(pow256(5) == 0x100_0000_0000);
    assert(pow256(6) == 0x1_0000_0000_0000);
    assert(pow256(7) == 0x100_0000_0000_0000);
    assert(pow256(8) == 0x1_0000_0000_0000_0000);
}

pub proof fn lemma_pow256_mono(a: nat, b: nat)
    requires
        a <= b,
    ensures
        pow256(a) <= pow256(b),
        pow256(a) >= 1,
    decreases b,
{
    if a < b {
        lemma_pow256_mono(a, (b - 1) as nat);
    } else if a > 0 {
        lemma_pow256_mono((a - 1) as nat, (b - 1) as nat);
    }
}

/// No 0xAA byte is immediately followed by a 0x55 byte anywhere in `s`.
pub open spec fn no_aa55(s: Seq<u8>) -> bool {
    forall|i: int| 0 <= i && i + 1 < s.len() ==> !(#[trigger] s[i] == 0xaa && s[i + 1] == 0x55)
}

/// One pass of byte-stuffing over a tail of the envelope: after any 0xAA whose
/// successor is 0x55 or 0xAA a 0x55 is inserted, and the scan continues at
/// that successor.
pub open spec fn stuff_tail(s: Seq<u8>) -> Seq<u8>
    decreases s.len(),
{
    if s.len() < 2 {
        s
    } else if s[0] == 0xaa && (s[1] == 0x55 || s[1] == 0xaa) {
        seq![0xaau8, 0x55u8] + stuff_tail(s.drop_first())
    } else {
        seq![s[0]] + stuff_tail(s.drop_first())
    }
}

/// Byte-stuffing of a whole envelope: the two preamble bytes are exempt.
pub open spec fn stuff(s: Seq<u8>) -> Seq<u8> {
    if s.len() <= 2 {
        s
    } else {
        s.take(2) + stuff_tail(s.skip(2))
    }
}

/// The decoder's un-stuffing pass: wherever an 0xAA is followed by a 0x55 the
/// 0x55 is removed and the same 0xAA is paired with the next byte again.
pub open spec fn unstuff(s: Seq<u8>) -> Seq<u8>
    decreases s.len(),
{
    if s.len() < 2 {
        s
    } else if s[0] == 0xaa && s[1] == 0x55 {
        unstuff(seq![0xaau8] + s.skip(2))
    } else {
        seq![s[0]] + unstuff(s.drop_first())
    }
}

pub proof fn lemma_unstuff_len(s: Seq<u8>)
    ensures
        unstuff(s).len() <= s.len(),
        s.len() >= 1 ==> unstuff(s).len() >= 1 && unstuff(s)[0] == s[0],
    decreases s.len(),
{
    if s.len() < 2 {
    } else if s[0] == 0xaa && s[1] == 0x55 {
        lemma_unstuff_len(seq![0xaau8] + s.skip(2));
    } else {
        lemma_unstuff_len(s.drop_first());
    }
}

/// Un-stuffing a sequence that has no 0xAA 0x55 pair leaves it unchanged.
pub proof fn lemma_unstuff_identity(s: Seq<u8>)
    requires
        no_aa55(s),
    ensures
        unstuff(s) == s,
    decreases s.len(),
{
    if s.len() < 2 {
    } else {
        assert(!(s[0] == 0xaa && s[1] == 0x55));
        lemma_unstuff_identity(s.drop_first());
        assert(seq![s[0]] + s.drop_first() =~= s);
    }
}

/// The result of un-stuffing never contains an 0xAA 0x55 pair.
pub proof fn lemma_unstuff_no_pair(s: Seq<u8>)
    ensures
        no_aa55(unstuff(s)),
    decreases s.len(),
{
    if s.len() < 2 {
    } else if s[0] == 0xaa && s[1] == 0x55 {
        lemma_unstuff_no_pair(seq![0xaau8] + s.skip(2));
    } else {
        lemma_unstuff_no_pair(s.drop_first());
        lemma_unstuff_len(s.drop_first());
        let u = unstuff(s);
        assert forall|i: int| 0 <= i && i + 1 < u.len() implies !(#[trigger] u[i] == 0xaa && u[i
            + 1] == 0x55) by {
            if i == 0 {
                if s.len() >= 2 {
                    assert(u[1] == unstuff(s.drop_first())[0]);
                }
            } else {
                assert(u[i] == unstuff(s.drop_first())[i - 1]);
                assert(u[i + 1] == unstuff(s.drop_first())[i]);
            }
        }
    }
}

pub proof fn lemma_no_aa55_skip(s: Seq<u8>, k: int)
    requires
        no_aa55(s),
        0 <= k <= s.len(),
    ensures
        no_aa55(s.skip(k)),
{
    assert forall|i: int| 0 <= i && i + 1 < s.skip(k).len() implies !(#[trigger] s.skip(k)[i]
        == 0xaa && s.skip(k)[i + 1] == 0x55) by {
        assert(s.skip(k)[i] == s[i + k]);
        assert(s.skip(k)[i + 1] == s[i + k + 1]);
    }
}

/// Un-stuffing inverts stuffing on any tail that has no 0xAA 0x55 pair.
proof fn lemma_unstuff_stuff_tail(u: Seq<u8>)
    requires
        no_aa55(u),
    ensures
        unstuff(stuff_tail(u)) == u,
        stuff_tail(u).len() >= u.len(),
        u.len() >= 1 ==> stuff_tail(u).len() >= 1 && stuff_tail(u)[0] == u[0],
    decreases u.len(),
{
    if u.len() < 2 {
    } else {
        lemma_no_aa55_skip(u, 1);
        assert(u.skip(1) =~= u.drop_first());
        lemma_unstuff_stuff_tail(u.drop_first());
        let t1 = stuff_tail(u.drop_first());
        if u[0] == 0xaa && (u[1] == 0x55 || u[1] == 0xaa) {
            assert(u[1] == 0xaa);
            let x = seq![0xaau8, 0x55u8] + t1;
            assert(stuff_tail(u) == x);
            assert(x[0] == 0xaa && x[1] == 0x55);
            assert(seq![0xaau8] + x.skip(2) =~= seq![0xaau8] + t1);
            let y = seq![0xaau8] + t1;
            assert(unstuff(x) == unstuff(y));
            assert(y.len() >= 2);
            assert(y[1] == t1[0]);
            assert(t1[0] == 0xaa);
            assert(!(y[0] == 0xaa && y[1] == 0x55));
            assert(unstuff(y) == seq![y[0]] + unstuff(y.drop_first()));
            assert(y.drop_first() =~= t1);
            assert(seq![0xaau8] + u.drop_first() =~= u);
        } else {
            let x = seq![u[0]] + t1;
            assert(stuff_tail(u) == x);
            assert(x.len() >= 2);
            assert(x[1] == t1[0]);
            assert(x[1] == u[1]);
            assert(!(x[0] == 0xaa && x[1] == 0x55));
            assert(unstuff(x) == seq![x[0]] + unstuff(x.drop_first()));
            assert(x.drop_first() =~= t1);
            assert(seq![u[0]] + u.drop_first() =~= u);
        }
    }
}

/// Stuffing inverse: un-stuffing undoes stuffing on any byte string in which
/// no 0xAA is immediately followed by a 0x55, and the first two bytes (the
/// preamble position, which stuffing exempts) are preserved exactly.
pub proof fn lemma_stuffing_inverse(s: Seq<u8>)
    requires
        no_aa55(s),
    ensures
        unstuff(stuff(s)) == s,
        s.len() >= 2 ==> stuff(s).len() >= 2 && stuff(s)[0] == s[0] && stuff(s)[1] == s[1],
{
    if s.len() <= 2 {
        lemma_unstuff_identity(s);
    } else {
        lemma_no_aa55_skip(s, 2);
        lemma_unstuff_stuff_tail(s.skip(2));
        let t = stuff_tail(s.skip(2));
        let x = s.take(2) + t;
        assert(stuff(s) == x);
        assert(t.len() >= 1 && t[0] == s[2]);
        assert(x.len() >= 3);
        assert(x[0] == s[0] && x[1] == s[1] && x[2] == t[0]);
        assert(!(x[0] == 0xaa && x[1] == 0x55));
        assert(unstuff(x) == seq![x[0]] + unstuff(x.drop_first()));
        let x1 = x.drop_first();
        assert(x1.len() >= 2);
        assert(x1[0] == s[1] && x1[1] == s[2]);
        assert(!(x1[0] == 0xaa && x1[1] == 0x55));
        assert(unstuff(x1) == seq![x1[0]] + unstuff(x1.drop_first()));
        assert(x1.drop_first() =~= t);
        assert(seq![x[0]] + (seq![x1[0]] + s.skip(2)) =~= s);
    }
}

/// Un-stuffing distributes over concatenation as long as the right part
/// does not begin with a 0x55 that could pair with a trailing 0xAA.
pub proof fn lemma_unstuff_concat(a: Seq<u8>, b: Seq<u8>)
    requires
        b.len() == 0 || b[0] != 0x55,
    ensures
        unstuff(a + b) == unstuff(a) + unstuff(b),
    decreases a.len(),
{
    if a.len() == 0 {
        assert(a + b =~= b);
        assert(unstuff(a) + unstuff(b) =~= unstuff(b));
    } else if a.len() == 1 {
        if b.len() == 0 {
            assert(a + b =~= a);
            assert(unstuff(a) + unstuff(b) =~= unstuff(a));
        } else {
            let x = a + b;
            assert(x.len() >= 2);
            assert(x[0] == a[0] && x[1] == b[0]);
            assert(!(x[0] == 0xaa && x[1] == 0x55));
            assert(unstuff(x) == seq![x[0]] + unstuff(x.drop_first()));
            assert(x.drop_first() =~= b);
            assert(unstuff(a) =~= a);
            assert(seq![a[0]] + unstuff(b) =~= unstuff(a) + unstuff(b));
        }
    } else {
        let x = a + b;
        assert(x.len() >= 2);
        assert(x[0] == a[0] && x[1] == a[1]);
        if a[0] == 0xaa && a[1] == 0x55 {
            assert(unstuff(x) == unstuff(seq![0xaau8] + x.skip(2)));
            assert(seq![0xaau8] + x.skip(2) =~= (seq![0xaau8] + a.skip(2)) + b);
            lemma_unstuff_concat(seq![0xaau8] + a.skip(2), b);
            assert(unstuff(a) == unstuff(seq![0xaau8] + a.skip(2)));
        } else {
            assert(unstuff(x) == seq![x[0]] + unstuff(x.drop_first()));
            assert(x.drop_first() =~= a.drop_first() + b);
            lemma_unstuff_concat(a.drop_first(), b);
            assert(unstuff(a) == seq![a[0]] + unstuff(a.drop_first()));
            assert(seq![a[0]] + (unstuff(a.drop_first()) + unstuff(b)) =~= (seq![a[0]] + unstuff(
                a.drop_first(),
            )) + unstuff(b));
        }
    }
}

/// How many source bytes the first `q` bytes of `stuff_tail(u)` cover.
pub open spec fn tail_src_len(u: Seq<u8>, q: int) -> int
    decreases u.len(),
{
    if q <= 0 {
        0
    } else if u.len() < 2 {
        q
    } else if u[0] == 0xaa && (u[1] == 0x55 || u[1] == 0xaa) {
        if q <= 2 {
            1
        } else {
            1 + tail_src_len(u.drop_first(), q - 2)
        }
    } else {
        1 + tail_src_len(u.drop_first(), q - 1)
    }
}

/// Un-stuffing a prefix of a stuffed tail yields exactly the source bytes
/// that prefix covers; a proper prefix never covers the whole source.
pub proof fn lemma_unstuff_stuff_tail_take(u: Seq<u8>, q: int)
    requires
        no_aa55(u),
        0 <= q <= stuff_tail(u).len(),
    ensures
        0 <= tail_src_len(u, q) <= u.len(),
        unstuff(stuff_tail(u).take(q)) == u.take(tail_src_len(u, q)),
        q < stuff_tail(u).len() ==> tail_src_len(u, q) < u.len(),
        q == stuff_tail(u).len() ==> tail_src_len(u, q) == u.len(),
    decreases u.len(),
{
    let s = stuff_tail(u);
    if q == 0 {
        assert(s.take(0) =~= Seq::<u8>::empty());
        assert(u.take(0) =~= Seq::<u8>::empty());
    } else if u.len() < 2 {
        assert(s == u);
        lemma_no_aa55_skip(u, 0);
        assert(u.skip(0) =~= u);
        assert(forall|i: int| 0 <= i && i + 1 < u.take(q).len() ==> !(#[trigger] u.take(q)[i]
            == 0xaa && u.take(q)[i + 1] == 0x55));
        lemma_unstuff_identity(u.take(q));
    } else {
        lemma_no_aa55_skip(u, 1);
        assert(u.skip(1) =~= u.drop_first());
        let t1 = stuff_tail(u.drop_first());
        if u[0] == 0xaa && (u[1] == 0x55 || u[1] == 0xaa) {
            assert(u[1] == 0xaa);
            assert(s == seq![0xaau8, 0x55u8] + t1);
            if q == 1 {
                assert(s.take(1) =~= seq![0xaau8]);
                assert(unstuff(seq![0xaau8]) == seq![0xaau8]);
                assert(u.take(1) =~= seq![0xaau8]);
            } else if q == 2 {
                assert(s.take(2) =~= seq![0xaau8, 0x55u8]);
                assert(unstuff(seq![0xaau8, 0x55u8]) == unstuff(
                    seq![0xaau8] + seq![0xaau8, 0x55u8].skip(2),
                ));
                assert(seq![0xaau8] + seq![0xaau8, 0x55u8].skip(2) =~= seq![0xaau8]);
                assert(u.take(1) =~= seq![0xaau8]);
            } else {
                lemma_unstuff_stuff_tail_take(u.drop_first(), q - 2);
                let p1 = tail_src_len(u.drop_first(), q - 2);
                let x = s.take(q);
                assert(x[0] == 0xaa && x[1] == 0x55);
                assert(unstuff(x) == unstuff(seq![0xaau8] + x.skip(2)));
                assert(x.skip(2) =~= t1.take(q - 2));
                let y = seq![0xaau8] + t1.take(q - 2);
                assert(unstuff(x) == unstuff(y));
                if q - 2 == 0 {
                    assert(y =~= seq![0xaau8]);
                    assert(unstuff(y) == y);
                    assert(u.take(1) =~= seq![0xaau8]);
                } else {
                    lemma_unstuff_len(t1.take(q - 2));
                    assert(t1.take(q - 2)[0] == t1[0]);
                    lemma_unstuff_stuff_tail_first(u.drop_first());
                    assert(t1[0] == u[1]);
                    assert(y.len() >= 2 && y[0] == 0xaa && y[1] == u[1]);
                    assert(!(y[0] == 0xaa && y[1] == 0x55));
                    assert(unstuff(y) == seq![y[0]] + unstuff(y.drop_first()));
                    assert(y.drop_first() =~= t1.take(q - 2));
                    assert(unstuff(t1.take(q - 2)) == u.drop_first().take(p1));
                    assert(seq![0xaau8] + u.drop_first().take(p1) =~= u.take(1 + p1));
                }
            }
        } else {
            assert(s == seq![u[0]] + t1);
            lemma_unstuff_stuff_tail_take(u.drop_first(), q - 1);
            let p1 = tail_src_len(u.drop_first(), q - 1);
            let x = s.take(q);
            assert(x[0] == u[0]);
            if q == 1 {
                assert(x =~= seq![u[0]]);
                assert(unstuff(x) == x);
                assert(u.take(1) =~= seq![u[0]]);
            } else {
                assert(x.len() >= 2);
                assert(x[1] == t1[0]);
                lemma_unstuff_stuff_tail_first(u.drop_first());
                assert(t1[0] == u[1]);
                assert(!(x[0] == 0xaa && x[1] == 0x55));
                assert(unstuff(x) == seq![x[0]] + unstuff(x.drop_first()));
                assert(x.drop_first() =~= t1.take(q - 1));
                assert(unstuff(t1.take(q - 1)) == u.drop_first().take(p1));
                assert(seq![u[0]] + u.drop_first().take(p1) =~= u.take(1 + p1));
            }
        }
    }
}

/// A stuffed tail is at least as long as its source and keeps its first
/// byte.
pub proof fn lemma_unstuff_stuff_tail_first(u: Seq<u8>)
    ensures
        stuff_tail(u).len() >= u.len(),
        u.len() >= 1 ==> stuff_tail(u).len() >= 1 && stuff_tail(u)[0] == u[0],
    decreases u.len(),
{
    if u.len() >= 2 {
        lemma_unstuff_stuff_tail_first(u.drop_first());
    }
}

/// How many source bytes the first `j` bytes of a stuffed envelope cover.
pub open spec fn src_len(env: Seq<u8>, j: int) -> int {
    if j <= 2 || env.len() <= 2 {
        j
    } else {
        2 + tail_src_len(env.skip(2), j - 2)
    }
}

/// Un-stuffing a prefix of a stuffed envelope yields exactly the envelope
/// bytes that prefix covers; a proper prefix never covers the whole
/// envelope.
pub proof fn lemma_unstuff_stuff_take(env: Seq<u8>, j: int)
    requires
        no_aa55(env),
        0 <= j <= stuff(env).len(),
    ensures
        0 <= src_len(env, j) <= env.len(),
        unstuff(stuff(env).take(j)) == env.take(src_len(env, j)),
        j < stuff(env).len() ==> src_len(env, j) < env.len(),
        j == stuff(env).len() ==> src_len(env, j) == env.len(),
{
    let s = stuff(env);
    if env.len() <= 2 {
        assert(s == env);
        assert(forall|i: int| 0 <= i && i + 1 < env.take(j).len() ==> !(#[trigger] env.take(
            j,
        )[i] == 0xaa && env.take(j)[i + 1] == 0x55));
        lemma_unstuff_identity(env.take(j));
    } else {
        let t = stuff_tail(env.skip(2));
        assert(s == env.take(2) + t);
        lemma_no_aa55_skip(env, 2);
        if j <= 2 {
            assert(s.take(j) =~= env.take(j));
            assert(forall|i: int| 0 <= i && i + 1 < env.take(j).len() ==> !(#[trigger] env.take(
                j,
            )[i] == 0xaa && env.take(j)[i + 1] == 0x55));
            lemma_unstuff_identity(env.take(j));
        } else {
            lemma_unstuff_stuff_tail_take(env.skip(2), j - 2);
            let p1 = tail_src_len(env.skip(2), j - 2);
            let x = s.take(j);
            assert(x.len() >= 3);
            assert(x[0] == env[0] && x[1] == env[1]);
            assert(x[2] == t[0]);
            lemma_unstuff_stuff_tail_first(env.skip(2));
            assert(env.skip(2).len() >= 1);
            assert(t[0] == env[2]);
            assert(!(x[0] == 0xaa && x[1] == 0x55));
            assert(unstuff(x) == seq![x[0]] + unstuff(x.drop_first()));
            let x1 = x.drop_first();
            assert(x1.len() >= 2);
            assert(x1[0] == env[1] && x1[1] == env[2]);
            assert(!(x1[0] == 0xaa && x1[1] == 0x55));
            assert(unstuff(x1) == seq![x1[0]] + unstuff(x1.drop_first()));
            assert(x1.drop_first() =~= t.take(j - 2));
            assert(unstuff(t.take(j - 2)) == env.skip(2).take(p1));
            assert(seq![env[0]] + (seq![env[1]] + env.skip(2).take(p1)) =~= env.take(2 + p1));
        }
    }
}

/// An already un-stuffed prefix absorbs into a longer un-stuffing pass:
/// running the pass again over its own output and fresh bytes is the same
/// as running it once over everything.
pub proof fn lemma_unstuff_absorb(a: Seq<u8>, b: Seq<u8>)
    ensures
        unstuff(unstuff(a) + b) == unstuff(a + b),
    decreases a.len(),
{
    if a.len() < 2 {
        assert(unstuff(a) == a);
    } else if a[0] == 0xaa && a[1] == 0x55 {
        let a2 = seq![0xaau8] + a.skip(2);
        assert(unstuff(a) == unstuff(a2));
        lemma_unstuff_absorb(a2, b);
        let x = a + b;
        assert(x[0] == 0xaa && x[1] == 0x55);
        assert(unstuff(x) == unstuff(seq![0xaau8] + x.skip(2)));
        assert(seq![0xaau8] + x.skip(2) =~= a2 + b);
    } else {
        lemma_unstuff_absorb(a.drop_first(), b);
        lemma_unstuff_len(a.drop_first());
        assert(unstuff(a) == seq![a[0]] + unstuff(a.drop_first()));
        let x = a + b;
        assert(x[0] == a[0] && x[1] == a[1]);
        assert(unstuff(x) == seq![x[0]] + unstuff(x.drop_first()));
        assert(x.drop_first() =~= a.drop_first() + b);
        let y = unstuff(a) + b;
        assert(y[0] == a[0]);
        if y.len() < 2 {
            assert(unstuff(a.drop_first()).len() == 0 && b.len() == 0);
            assert(y =~= seq![a[0]]);
            assert(unstuff(y) == y);
            assert(seq![a[0]] + (unstuff(a.drop_first()) + b) =~= y);
            assert(unstuff(a.drop_first() + b).len() <= (a.drop_first() + b).len());
            lemma_unstuff_len(a.drop_first() + b);
            assert(unstuff(unstuff(a.drop_first()) + b) == unstuff(a.drop_first() + b));
            assert(unstuff(Seq::<u8>::empty() + b) == unstuff(b));
            assert(Seq::<u8>::empty() + b =~= b);
            assert(unstuff(a.drop_first() + b) =~= Seq::<u8>::empty());
            assert(seq![a[0]] + unstuff(a.drop_first() + b) =~= seq![a[0]]);
        } else {
            // y's second byte is the first of unstuff(a.drop_first()) + b,
            // which is a[1] (or b[0] when the middle part vanished; it
            // cannot, since un-stuffing keeps the first byte of a nonempty
            // sequence and a.drop_first() is nonempty)
            assert(a.drop_first().len() >= 1);
            assert(unstuff(a.drop_first())[0] == a[1]);
            assert(y[1] == a[1]);
            assert(!(y[0] == 0xaa && y[1] == 0x55));
            assert(unstuff(y) == seq![y[0]] + unstuff(y.drop_first()));
            assert(y.drop_first() =~= unstuff(a.drop_first()) + b);
            assert(seq![a[0]] + (unstuff(a.drop_first() + b)) =~= unstuff(a + b)) by {
                assert(unstuff(a + b) == seq![x[0]] + unstuff(x.drop_first()));
                assert(x.drop_first() =~= a.drop_first() + b);
            }
        }
    }
}

/// Computes the protocol checksum: the 8-bit wrapping sum of `data`.
pub(crate) fn wrap8_sum(data: &[u8]) -> (r: u8)
    ensures
        r == sum8(data@),
{
    let mut acc: u8 = 0;
    let mut i: usize = 0;
    assert(data@.take(0) =~= Seq::<u8>::empty());
    while i < data.len()
        invariant
            i <= data.len(),
            acc == sum8(data@.take(i as int)),
        decreases data.len() - i,
    {
        let b = data[i];
        acc = acc.wrapping_add(b);
        proof {
            assert(data@.take(i + 1).drop_last() =~= data@.take(i as int));
            assert(data@.take(i + 1).last() == b);
        }
        i = i + 1;
    }
    proof {
        assert(data@.take(data@.len() as int) =~= data@);
    }
    acc
}

/// Applies the byte-stuffing pass to a copy of `data`, leaving the first two
/// bytes untouched.
pub(crate) fn stuff_bytes(data: &[u8]) -> (r: Vec<u8>)
    ensures
        r@ == stuff(data@),
{
    let mut arr: Vec<u8> = slice_to_vec(data);
    if data.len() <= 2 {
        return arr;
    }
    let mut count: usize = 2;
    let ghost orig = data@;
    while count < arr.len() - 1
        invariant
            2 <= count <= arr.len(),
            arr.len() >= 3,
            arr@.take(count as int) + stuff_tail(arr@.skip(count as int)) == stuff(orig),
        decreases arr.len() - count,
    {
        let current = arr[count];
        let next = arr[count + 1];
        let ghost pre = arr@.take(count as int);
        let ghost rest = arr@.skip(count as int);
        if current == 0xaa && (next == 0x55 || next == 0xaa) {
            arr.insert(count + 1, 0x55);
            proof {
                assert(rest.len() >= 2 && rest[0] == 0xaa && (rest[1] == 0x55 || rest[1]
                    == 0xaa));
                assert(stuff_tail(rest) == seq![0xaau8, 0x55u8] + stuff_tail(rest.drop_first()));
                assert(arr@.take(count + 2) =~= pre + seq![0xaau8, 0x55u8]);
                assert(arr@.skip(count + 2) =~= rest.drop_first());
                assert(pre + stuff_tail(rest) =~= (pre + seq![0xaau8, 0x55u8]) + stuff_tail(
                    rest.drop_first(),
                ));
            }
            count = count + 2;
        } else {
            proof {
                assert(rest.len() >= 2);
                assert(stuff_tail(rest) == seq![rest[0]] + stuff_tail(rest.drop_first()));
                assert(arr@.take(count + 1) =~= pre + seq![rest[0]]);
                assert(arr@.skip(count + 1) =~= rest.drop_first());
                assert(pre + stuff_tail(rest) =~= (pre + seq![rest[0]]) + stuff_tail(
                    rest.drop_first(),
                ));
            }
            count = count + 1;
        }
    }
    proof {
        assert(arr@.skip(count as int).len() < 2);
        assert(stuff_tail(arr@.skip(count as int)) == arr@.skip(count as int));
        assert(arr@.take(count as int) + arr@.skip(count as int) =~= arr@);
    }
    arr
}

/// Applies the un-stuffing pass to a copy of `data`.
pub(crate) fn unstuff_bytes(data: &[u8]) -> (r: Vec<u8>)
    ensures
        r@ == unstuff(data@),
{
    let mut arr: Vec<u8> = slice_to_vec(data);
    if arr.len() < 2 {
        return arr;
    }
    let mut i: usize = 0;
    let ghost orig = data@;
    proof {
        assert(arr@.skip(0) =~= orig);
        assert(arr@.take(0) + unstuff(arr@.skip(0)) =~= unstuff(orig));
    }
    while i < arr.len() - 1
        invariant
            i <= arr.len(),
            arr.len() >= 1,
            arr@.take(i as int) + unstuff(arr@.skip(i as int)) == unstuff(orig),
        decreases arr.len() - i + arr.len(),
    {
        let current = arr[i];
        let next = arr[i + 1];
        let ghost pre = arr@.take(i as int);
        let ghost rest = arr@.skip(i as int);
        if current == 0xaa && next == 0x55 {
            arr.remove(i + 1);
            proof {
                assert(rest.len() >= 2 && rest[0] == 0xaa && rest[1] == 0x55);
                assert(unstuff(rest) == unstuff(seq![0xaau8] + rest.skip(2)));
                assert(arr@.take(i as int) =~= pre);
                assert(arr@.skip(i as int) =~= seq![0xaau8] + rest.skip(2));
            }
        } else {
            proof {
                assert(rest.len() >= 2);
                assert(unstuff(rest) == seq![rest[0]] + unstuff(rest.drop_first()));
                assert(arr@.take(i + 1) =~= pre + seq![rest[0]]);
                assert(arr@.skip(i + 1) =~= rest.drop_first());
                assert(pre + (seq![rest[0]] + unstuff(rest.drop_first())) =~= (pre + seq![
                    rest[0],
                ]) + unstuff(rest.drop_first()));
            }
            i = i + 1;
        }
    }
    proof {
        assert(arr@.skip(i as int).len() < 2);
        assert(unstuff(arr@.skip(i as int)) == arr@.skip(i as int));
        assert(arr@.take(i as int) + arr@.skip(i as int) =~= arr@);
    }
    arr
}

/// Copies a byte slice into a fresh vector.
fn slice_to_vec(data: &[u8]) -> (r: Vec<u8>)
    ensures
        r@ == data@,
{
    let mut v: Vec<u8> = Vec::new();
    let mut i: usize = 0;
    while i < data.len()
        invariant
            i <= data.len(),
            v@ =~= data@.take(i as int),
        decreases data.len() - i,
    {
        v.push(data[i]);
        i = i + 1;
    }
    proof {
        assert(data@.take(data@.len() as int) =~= data@);
    }
    v
}

} // verus!
