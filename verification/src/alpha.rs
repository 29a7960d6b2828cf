//! Premultiply / unmultiply transforms: reversible (lossy) per-pixel alpha
//! scaling, shared by all decode paths and exposed for callers needing to
//! undo premultiplication.

use vstd::prelude::*;

verus! {

/// A color channel scaled by the alpha fraction, truncating.
pub open spec fn premul_channel(c: u8, a: u8) -> u8 {
    ((c * a) / 255) as u8
}

/// A premultiplied color channel scaled back up by the alpha fraction,
/// truncating and saturating at 255. Channels of a fully transparent pixel
/// pass through unchanged.
pub open spec fn unmul_channel(c: u8, a: u8) -> u8 {
    if a == 0 {
        c
    } else if c * 255 / (a as int) > 255 {
        255u8
    } else {
        (c * 255 / (a as int)) as u8
    }
}

/// The first `n` pixels of `s` premultiplied.
pub open spec fn premultiplied(s: Seq<u8>, n: int) -> Seq<u8>
    decreases n,
{
    if n <= 0 {
        Seq::empty()
    } else {
        let a = s[4 * (n - 1) + 3];
        premultiplied(s, n - 1).push(premul_channel(s[4 * (n - 1)], a)).push(
            premul_channel(s[4 * (n - 1) + 1], a),
        ).push(premul_channel(s[4 * (n - 1) + 2], a)).push(a)
    }
}

/// All of `s` premultiplied: whole pixels are transformed, a trailing
/// fragment of fewer than four bytes is left as it is.
pub open spec fn premultiplied_full(s: Seq<u8>) -> Seq<u8> {
    premultiplied(s, s.len() as int / 4) + s.skip(s.len() as int / 4 * 4)
}

/// The first `n` pixels of `s` unmultiplied.
pub open spec fn unmultiplied(s: Seq<u8>, n: int) -> Seq<u8>
    decreases n,
{
    if n <= 0 {
        Seq::empty()
    } else {
        let a = s[4 * (n - 1) + 3];
        unmultiplied(s, n - 1).push(unmul_channel(s[4 * (n - 1)], a)).push(
            unmul_channel(s[4 * (n - 1) + 1], a),
        ).push(unmul_channel(s[4 * (n - 1) + 2], a)).push(a)
    }
}

/// All of `s` unmultiplied; a trailing fragment is left as it is.
pub open spec fn unmultiplied_full(s: Seq<u8>) -> Seq<u8> {
    unmultiplied(s, s.len() as int / 4) + s.skip(s.len() as int / 4 * 4)
}

pub proof fn lemma_premultiplied_len(s: Seq<u8>, n: int)
    requires
        n >= 0,
    ensures
        premultiplied(s, n).len() == 4 * n,
    decreases n,
{
    if n > 0 {
        lemma_premultiplied_len(s, n - 1);
    }
}

pub proof fn lemma_unmultiplied_len(s: Seq<u8>, n: int)
    requires
        n >= 0,
    ensures
        unmultiplied(s, n).len() == 4 * n,
    decreases n,
{
    if n > 0 {
        lemma_unmultiplied_len(s, n - 1);
    }
}

/// Converts standard RGBA to premultiplied alpha.
pub fn premultiply_alpha_rgba(rgba: &mut Vec<u8>)
    ensures
        final(rgba)@ == premultiplied_full(old(rgba)@),
        final(rgba)@.len() == old(rgba)@.len(),
{
    let n = rgba.len() / 4;
    let mut out: Vec<u8> = Vec::new();
    let mut p: usize = 0;
    while p < n
        invariant
            p <= n,
            out@ == premultiplied(rgba@, p as int),
            out@.len() == 4 * p,
        decreases n - p,
    {
        let i = 4 * p;
        let a = rgba[i + 3];
        out.push(premul_channel_exec(rgba[i], a));
        out.push(premul_channel_exec(rgba[i + 1], a));
        out.push(premul_channel_exec(rgba[i + 2], a));
        out.push(a);
        p += 1;
    }
    let mut j: usize = 4 * n;
    while j < rgba.len()
        invariant
            4 * n <= j <= rgba@.len(),
            out@ == premultiplied(rgba@, n as int) + rgba@.subrange(4 * n as int, j as int),
            out@.len() == j,
        decreases rgba@.len() - j,
    {
        out.push(rgba[j]);
        proof {
            assert(out@ =~= premultiplied(rgba@, n as int) + rgba@.subrange(
                4 * n as int,
                j as int + 1,
            ));
        }
        j += 1;
    }
    proof {
        assert(out@ =~= premultiplied_full(rgba@));
    }
    *rgba = out;
}

/// Converts premultiplied RGBA to unmultiplied RGBA. Pixels whose alpha is
/// zero pass through unchanged.
pub fn unmultiply_alpha_rgba(rgba: &mut Vec<u8>)
    ensures
        final(rgba)@ == unmultiplied_full(old(rgba)@),
        final(rgba)@.len() == old(rgba)@.len(),
{
    let n = rgba.len() / 4;
    let mut out: Vec<u8> = Vec::new();
    let mut p: usize = 0;
    while p < n
        invariant
            p <= n,
            out@ == unmultiplied(rgba@, p as int),
            out@.len() == 4 * p,
        decreases n - p,
    {
        let i = 4 * p;
        let a = rgba[i + 3];
        if a > 0 {
            out.push(unmul_channel_exec(rgba[i], a));
            out.push(unmul_channel_exec(rgba[i + 1], a));
            out.push(unmul_channel_exec(rgba[i + 2], a));
        } else {
            out.push(rgba[i]);
            out.push(rgba[i + 1]);
            out.push(rgba[i + 2]);
        }
        out.push(a);
        p += 1;
    }
    let mut j: usize = 4 * n;
    while j < rgba.len()
        invariant
            4 * n <= j <= rgba@.len(),
            out@ == unmultiplied(rgba@, n as int) + rgba@.subrange(4 * n as int, j as int),
            out@.len() == j,
        decreases rgba@.len() - j,
    {
        out.push(rgba[j]);
        proof {
            assert(out@ =~= unmultiplied(rgba@, n as int) + rgba@.subrange(
                4 * n as int,
                j as int + 1,
            ));
        }
        j += 1;
    }
    proof {
        assert(out@ =~= unmultiplied_full(rgba@));
    }
    *rgba = out;
}

fn premul_channel_exec(c: u8, a: u8) -> (r: u8)
    ensures
        r == premul_channel(c, a),
{
    proof {
        vstd::arithmetic::mul::lemma_mul_upper_bound(c as int, 255, a as int, 255);
    }
    ((c as u16 * a as u16) / 255) as u8
}

fn unmul_channel_exec(c: u8, a: u8) -> (r: u8)
    requires
        a > 0,
    ensures
        r == unmul_channel(c, a),
{
    let v = (c as u16 * 255) / (a as u16);
    if v > 255 {
        255
    } else {
        v as u8
    }
}

/// The shape all premultiplied pixel data has: every color channel is at
/// most its pixel's alpha byte.
pub open spec fn premultiplied_valid(s: Seq<u8>) -> bool {
    forall|i: int|
        0 <= i < s.len() && i % 4 != 3 && 4 * (i / 4) + 3 < s.len() ==> #[trigger] s[i] <= s[4 * (
        i / 4) + 3]
}

/// A channel scaled down by its alpha fraction never exceeds the alpha.
pub proof fn lemma_premul_channel_le_alpha(c: u8, a: u8)
    ensures
        premul_channel(c, a) <= a,
{
    assert(0 <= (c as int) * (a as int) / 255 <= a as int) by (nonlinear_arith)
        requires
            0 <= c as int <= 255,
            0 <= a as int <= 255,
    ;
}

/// The first `n` premultiplied pixels satisfy the channel-at-most-alpha
/// shape.
pub proof fn lemma_premultiplied_is_valid(s: Seq<u8>, n: int)
    requires
        n >= 0,
    ensures
        premultiplied_valid(premultiplied(s, n)),
    decreases n,
{
    if n > 0 {
        lemma_premultiplied_is_valid(s, n - 1);
        lemma_premultiplied_len(s, n - 1);
        let t0 = premultiplied(s, n - 1);
        let t = premultiplied(s, n);
        let a = s[4 * (n - 1) + 3];
        assert forall|i: int|
            0 <= i < t.len() && i % 4 != 3 && 4 * (i / 4) + 3 < t.len() implies #[trigger] t[i] <= t[4 * (i
            / 4) + 3] by {
            if i < 4 * (n - 1) {
                assert(4 * (i / 4) + 3 < 4 * (n - 1));
                assert(t[i] == t0[i]);
                assert(t[4 * (i / 4) + 3] == t0[4 * (i / 4) + 3]);
            } else {
                assert(i / 4 == n - 1);
                assert(t[4 * (n - 1) + 3] == a);
                lemma_premul_channel_le_alpha(s[4 * (n - 1)], a);
                lemma_premul_channel_le_alpha(s[4 * (n - 1) + 1], a);
                lemma_premul_channel_le_alpha(s[4 * (n - 1) + 2], a);
            }
        }
    }
}

/// A whole buffer of complete pixels is premultiplied into that shape.
pub proof fn lemma_premultiplied_full_valid(s: Seq<u8>)
    requires
        s.len() % 4 == 0,
    ensures
        premultiplied_valid(premultiplied_full(s)),
{
    lemma_premultiplied_is_valid(s, s.len() as int / 4);
    lemma_premultiplied_len(s, s.len() as int / 4);
    assert(premultiplied_full(s) =~= premultiplied(s, s.len() as int / 4));
}

/// Premultiplying and then unmultiplying a buffer of fully opaque pixels
/// (every alpha byte is 255) gives back exactly the original buffer.
pub proof fn lemma_premultiply_unmultiply_opaque(s: Seq<u8>)
    requires
        s.len() % 4 == 0,
        forall|p: int| 0 <= p < s.len() / 4 ==> #[trigger] s[4 * p + 3] == 255u8,
    ensures
        unmultiplied_full(premultiplied_full(s)) == s,
{
    lemma_premultiplied_opaque_prefix(s, s.len() as int / 4);
    assert(premultiplied_full(s) =~= s);
    lemma_unmultiplied_opaque_prefix(s, s.len() as int / 4);
    assert(unmultiplied_full(s) =~= s);
}

/// Unmultiplying leaves a buffer of fully transparent pixels (every alpha
/// byte is 0) exactly as it is.
pub proof fn lemma_unmultiply_transparent(s: Seq<u8>)
    requires
        s.len() % 4 == 0,
        forall|p: int| 0 <= p < s.len() / 4 ==> #[trigger] s[4 * p + 3] == 0u8,
    ensures
        unmultiplied_full(s) == s,
{
    lemma_unmultiplied_transparent_prefix(s, s.len() as int / 4);
    assert(unmultiplied_full(s) =~= s);
}

proof fn lemma_premultiplied_opaque_prefix(s: Seq<u8>, n: int)
    requires
        0 <= n,
        4 * n <= s.len(),
        forall|p: int| 0 <= p < n ==> #[trigger] s[4 * p + 3] == 255u8,
    ensures
        premultiplied(s, n) =~= s.take(4 * n),
    decreases n,
{
    if n > 0 {
        lemma_premultiplied_opaque_prefix(s, n - 1);
        lemma_premultiplied_len(s, n - 1);
        assert(s[4 * (n - 1) + 3] == 255u8);
        assert forall|c: u8| premul_channel(c, 255u8) == c by {
            assert(c * 255 / 255 == c);
        }
    }
}

proof fn lemma_unmultiplied_opaque_prefix(s: Seq<u8>, n: int)
    requires
        0 <= n,
        4 * n <= s.len(),
        forall|p: int| 0 <= p < n ==> #[trigger] s[4 * p + 3] == 255u8,
    ensures
        unmultiplied(s, n) =~= s.take(4 * n),
    decreases n,
{
    if n > 0 {
        lemma_unmultiplied_opaque_prefix(s, n - 1);
        lemma_unmultiplied_len(s, n - 1);
        assert(s[4 * (n - 1) + 3] == 255u8);
        assert forall|c: u8| unmul_channel(c, 255u8) == c by {
            assert(c * 255 / 255 == c);
        }
    }
}

proof fn lemma_unmultiplied_transparent_prefix(s: Seq<u8>, n: int)
    requires
        0 <= n,
        4 * n <= s.len(),
        forall|p: int| 0 <= p < n ==> #[trigger] s[4 * p + 3] == 0u8,
    ensures
        unmultiplied(s, n) =~= s.take(4 * n),
    decreases n,
{
    if n > 0 {
        lemma_unmultiplied_transparent_prefix(s, n - 1);
        lemma_unmultiplied_len(s, n - 1);
        assert(s[4 * (n - 1) + 3] == 0u8);
    }
}

} // verus!
