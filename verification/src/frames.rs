//! Decoded icon-container frames and the quality ranking imposed on them.
//!
//! A frame ranks before another when it has smooth (partial) alpha and the
//! other does not; then when it is stored in the compact (PNG) format and the
//! other is not; then when its pixel area is larger.  Ties keep decode order.

use vstd::prelude::*;
use vstd::seq_lib::lemma_multiset_commutative;

verus! {

broadcast use vstd::seq_lib::group_seq_properties, vstd::seq_lib::group_filter_ensures;

/// One decoded frame of an icon container.  `data` holds the frame re-encoded
/// as a portable PNG buffer, never raw device-dependent bytes.
#[derive(Debug)]
pub struct IcoFrame {
    pub width: u32,
    pub height: u32,
    pub has_smooth_alpha: bool,
    pub is_png: bool,
    pub data: Vec<u8>,
}

/// The mathematical value of a frame.
pub struct FrameView {
    pub width: u32,
    pub height: u32,
    pub has_smooth_alpha: bool,
    pub is_png: bool,
    pub data: Seq<u8>,
}

impl View for IcoFrame {
    type V = FrameView;

    open spec fn view(&self) -> FrameView {
        FrameView {
            width: self.width,
            height: self.height,
            has_smooth_alpha: self.has_smooth_alpha,
            is_png: self.is_png,
            data: self.data@,
        }
    }
}

/// The values of a sequence of frames.
pub open spec fn frame_views(s: Seq<IcoFrame>) -> Seq<FrameView> {
    s.map_values(|f: IcoFrame| f@)
}

/// Pixel area of a frame, the last component of its quality key.
pub open spec fn area(f: FrameView) -> int {
    f.width * f.height
}

/// Strict ranking: `a` is of strictly better quality than `b`.
pub open spec fn ranks_before(a: FrameView, b: FrameView) -> bool {
    if a.has_smooth_alpha != b.has_smooth_alpha {
        a.has_smooth_alpha
    } else if a.is_png != b.is_png {
        a.is_png
    } else {
        area(a) > area(b)
    }
}

/// The two frames agree on all three components of the quality key.
pub open spec fn tied(a: FrameView, b: FrameView) -> bool {
    a.has_smooth_alpha == b.has_smooth_alpha && a.is_png == b.is_png && area(a) == area(b)
}

/// A sequence is sorted by quality: no frame strictly outranks an earlier one.
pub open spec fn sorted(s: Seq<FrameView>) -> bool {
    forall|i: int, j: int| 0 <= i < j < s.len() ==> !ranks_before(s[j], s[i])
}

/// Stable insertion of `f` into `s`: `f` goes in front of the first frame it
/// strictly outranks, hence after every frame it is tied with.
pub open spec fn insert_sorted(s: Seq<FrameView>, f: FrameView) -> Seq<FrameView>
    decreases s.len(),
{
    if s.len() == 0 {
        seq![f]
    } else if ranks_before(f, s[0]) {
        seq![f] + s
    } else {
        seq![s[0]] + insert_sorted(s.drop_first(), f)
    }
}

/// Stable sort of a frame sequence by quality.
pub open spec fn sort_spec(s: Seq<FrameView>) -> Seq<FrameView>
    decreases s.len(),
{
    if s.len() == 0 {
        Seq::empty()
    } else {
        insert_sorted(sort_spec(s.drop_last()), s.last())
    }
}

/// The subsequence of `s` whose frames are tied with `g`.
pub open spec fn tied_filter(s: Seq<FrameView>, g: FrameView) -> Seq<FrameView> {
    s.filter(|x: FrameView| tied(x, g))
}

proof fn lemma_insert_sorted_len(s: Seq<FrameView>, f: FrameView)
    ensures
        insert_sorted(s, f).len() == s.len() + 1,
    decreases s.len(),
{
    if s.len() == 0 {
    } else if ranks_before(f, s[0]) {
    } else {
        lemma_insert_sorted_len(s.drop_first(), f);
    }
}

proof fn lemma_insert_sorted_multiset(s: Seq<FrameView>, f: FrameView)
    ensures
        insert_sorted(s, f).to_multiset() =~= s.to_multiset().insert(f),
    decreases s.len(),
{
    broadcast use vstd::seq_lib::group_to_multiset_ensures;

    if s.len() == 0 {
        assert(seq![f] =~= Seq::<FrameView>::empty().push(f));
    } else if ranks_before(f, s[0]) {
        lemma_multiset_commutative(seq![f], s);
        assert(seq![f] =~= Seq::<FrameView>::empty().push(f));
    } else {
        lemma_insert_sorted_multiset(s.drop_first(), f);
        lemma_multiset_commutative(seq![s[0]], insert_sorted(s.drop_first(), f));
        lemma_multiset_commutative(seq![s[0]], s.drop_first());
        assert(seq![s[0]] + s.drop_first() =~= s);
        assert(seq![s[0]] =~= Seq::<FrameView>::empty().push(s[0]));
    }
}

proof fn lemma_insert_sorted_keeps_sorted(s: Seq<FrameView>, f: FrameView)
    requires
        sorted(s),
    ensures
        sorted(insert_sorted(s, f)),
    decreases s.len(),
{
    if s.len() == 0 {
    } else if ranks_before(f, s[0]) {
        let out = seq![f] + s;
        assert forall|i: int, j: int| 0 <= i < j < out.len() implies !ranks_before(
            out[j],
            out[i],
        ) by {
            if i == 0 {
                assert(out[j] == s[j - 1]);
                if j > 1 {
                    assert(!ranks_before(s[j - 1], s[0]));
                }
            } else {
                assert(out[i] == s[i - 1] && out[j] == s[j - 1]);
                assert(!ranks_before(s[j - 1], s[i - 1]));
            }
        }
    } else {
        let rest = s.drop_first();
        lemma_sorted_drop_first(s);
        lemma_insert_sorted_keeps_sorted(rest, f);
        lemma_insert_sorted_len(rest, f);
        let ins = insert_sorted(rest, f);
        let out = seq![s[0]] + ins;
        // every element of the recursive insertion is either f or from rest,
        // and neither strictly outranks s[0]
        assert forall|i: int, j: int| 0 <= i < j < out.len() implies !ranks_before(
            out[j],
            out[i],
        ) by {
            if i == 0 {
                lemma_insert_sorted_members(rest, f, j - 1);
                let e = ins[j - 1];
                assert(out[j] == e);
                if e == f {
                    assert(!ranks_before(f, s[0]));
                } else {
                    let k = choose|k: int| 0 <= k < rest.len() && rest[k] == e;
                    assert(rest[k] == s[k + 1]);
                    assert(!ranks_before(s[k + 1], s[0]));
                }
            } else {
                assert(out[i] == ins[i - 1] && out[j] == ins[j - 1]);
                assert(!ranks_before(ins[j - 1], ins[i - 1]));
            }
        }
    }
}

/// Each element of `insert_sorted(s, f)` is `f` or an element of `s`.
proof fn lemma_insert_sorted_members(s: Seq<FrameView>, f: FrameView, i: int)
    requires
        0 <= i < insert_sorted(s, f).len(),
    ensures
        insert_sorted(s, f)[i] == f || s.contains(insert_sorted(s, f)[i]),
    decreases s.len(),
{
    lemma_insert_sorted_len(s, f);
    if s.len() == 0 {
    } else if ranks_before(f, s[0]) {
        if i > 0 {
            assert((seq![f] + s)[i] == s[i - 1]);
        }
    } else {
        if i > 0 {
            lemma_insert_sorted_members(s.drop_first(), f, i - 1);
            let e = insert_sorted(s, f)[i];
            assert(e == insert_sorted(s.drop_first(), f)[i - 1]);
            if e != f {
                let k = choose|k: int|
                    0 <= k < s.drop_first().len() && s.drop_first()[k] == e;
                assert(s[k + 1] == e);
            }
        }
    }
}

/// `insert_sorted` places `f` exactly at the first position whose frame it
/// strictly outranks.
proof fn lemma_insert_sorted_at(s: Seq<FrameView>, f: FrameView, j: int)
    requires
        0 <= j <= s.len(),
        forall|m: int| 0 <= m < j ==> !ranks_before(f, s[m]),
        j < s.len() ==> ranks_before(f, s[j]),
    ensures
        insert_sorted(s, f) =~= s.insert(j, f),
    decreases s.len(),
{
    if s.len() == 0 {
    } else if ranks_before(f, s[0]) {
        assert(j == 0);
    } else {
        lemma_insert_sorted_at(s.drop_first(), f, j - 1);
    }
}

proof fn lemma_sorted_drop_first(s: Seq<FrameView>)
    requires
        sorted(s),
        s.len() > 0,
    ensures
        sorted(s.drop_first()),
{
    let rest = s.drop_first();
    assert forall|i: int, j: int| 0 <= i < j < rest.len() implies !ranks_before(
        rest[j],
        rest[i],
    ) by {
        assert(rest[i] == s[i + 1]);
        assert(rest[j] == s[j + 1]);
    }
}

proof fn lemma_filter_singleton(f: FrameView, g: FrameView)
    ensures
        tied(f, g) ==> tied_filter(seq![f], g) =~= seq![f],
        !tied(f, g) ==> tied_filter(seq![f], g) =~= Seq::<FrameView>::empty(),
{
    reveal_with_fuel(Seq::filter, 2);
    assert(seq![f].drop_last() =~= Seq::<FrameView>::empty());
}

/// Inserting `f` leaves the subsequence tied with any key unchanged except
/// for appending `f` to its own key's subsequence.
proof fn lemma_insert_tied_filter(s: Seq<FrameView>, f: FrameView, g: FrameView)
    requires
        sorted(s),
    ensures
        tied_filter(insert_sorted(s, f), g) =~= if tied(f, g) {
            tied_filter(s, g).push(f)
        } else {
            tied_filter(s, g)
        },
    decreases s.len(),
{
    broadcast use vstd::seq_lib::group_filter_ensures;

    let p = |x: FrameView| tied(x, g);
    lemma_filter_singleton(f, g);
    if s.len() == 0 {
        reveal_with_fuel(Seq::filter, 1);
        assert(tied_filter(s, g) =~= Seq::<FrameView>::empty());
        if tied(f, g) {
            assert(tied_filter(seq![f], g) =~= Seq::<FrameView>::empty().push(f));
        }
    } else if ranks_before(f, s[0]) {
        Seq::filter_distributes_over_add(seq![f], s, p);
        if tied(f, g) {
            // no frame of s can be tied with g: it would be tied with f,
            // yet rank at or below s[0], which f strictly outranks
            assert forall|i: int| 0 <= i < s.len() implies !p(s[i]) by {
                if i > 0 {
                    assert(!ranks_before(s[i], s[0]));
                }
            }
            s.lemma_all_neg_filter_empty(p);
            assert(tied_filter(insert_sorted(s, f), g) =~= seq![f]);
            assert(seq![f] =~= Seq::<FrameView>::empty().push(f));
        }
    } else {
        let rest = s.drop_first();
        lemma_sorted_drop_first(s);
        lemma_insert_tied_filter(rest, f, g);
        Seq::filter_distributes_over_add(seq![s[0]], insert_sorted(rest, f), p);
        Seq::filter_distributes_over_add(seq![s[0]], rest, p);
        assert(seq![s[0]] + rest =~= s);
        lemma_filter_singleton(s[0], g);
    }
}

pub proof fn lemma_sort_spec_len(s: Seq<FrameView>)
    ensures
        sort_spec(s).len() == s.len(),
    decreases s.len(),
{
    if s.len() > 0 {
        lemma_sort_spec_len(s.drop_last());
        lemma_insert_sorted_len(sort_spec(s.drop_last()), s.last());
    }
}

/// The ranked sequence is a permutation of its input.
pub proof fn lemma_rank_permutes(s: Seq<FrameView>)
    ensures
        sort_spec(s).to_multiset() =~= s.to_multiset(),
    decreases s.len(),
{
    broadcast use vstd::seq_lib::group_to_multiset_ensures;

    if s.len() > 0 {
        lemma_rank_permutes(s.drop_last());
        lemma_insert_sorted_multiset(sort_spec(s.drop_last()), s.last());
        assert(s.drop_last().push(s.last()) =~= s);
    }
}

/// The ranked sequence is sorted by the quality key.
pub proof fn lemma_rank_sorted(s: Seq<FrameView>)
    ensures
        sorted(sort_spec(s)),
    decreases s.len(),
{
    if s.len() > 0 {
        lemma_rank_sorted(s.drop_last());
        lemma_insert_sorted_keeps_sorted(sort_spec(s.drop_last()), s.last());
    }
}

/// Ranking is stable: for any quality key, the subsequence of frames tied
/// with it is the same, in the same order, before and after ranking.
pub proof fn lemma_rank_stable(s: Seq<FrameView>, g: FrameView)
    ensures
        tied_filter(sort_spec(s), g) =~= tied_filter(s, g),
    decreases s.len(),
{
    if s.len() == 0 {
        reveal_with_fuel(Seq::filter, 1);
    } else {
        let dl = s.drop_last();
        lemma_rank_stable(dl, g);
        lemma_rank_sorted(dl);
        lemma_insert_tied_filter(sort_spec(dl), s.last(), g);
        // one unfolding of filter along the last element of s
        reveal_with_fuel(Seq::filter, 2);
        assert(tied_filter(s, g) =~= if tied(s.last(), g) {
            tied_filter(dl, g).push(s.last())
        } else {
            tied_filter(dl, g)
        });
    }
}

/// The ranking relation is a total order up to ties: of any two frames,
/// exactly one of "a ranks before b", "b ranks before a", "a and b are tied"
/// holds.
pub proof fn lemma_rank_total(a: FrameView, b: FrameView)
    ensures
        ranks_before(a, b) || ranks_before(b, a) || tied(a, b),
        ranks_before(a, b) ==> !ranks_before(b, a) && !tied(a, b),
        ranks_before(b, a) ==> !ranks_before(a, b) && !tied(a, b),
        tied(a, b) ==> !ranks_before(a, b) && !ranks_before(b, a),
{
}

/// Whether any pixel of an RGBA buffer has an alpha value strictly between
/// fully transparent and fully opaque.
pub open spec fn smooth_alpha_spec(rgba: Seq<u8>) -> bool {
    exists|k: int|
        0 <= k && 4 * k + 3 < rgba.len() && #[trigger] rgba[4 * k + 3] != 0 && rgba[4 * k + 3]
            != 255
}

/// True if any pixel has partial transparency: an alpha byte that is neither
/// 0 nor 255.
pub fn has_smooth_alpha(rgba: &Vec<u8>) -> (r: bool)
    ensures
        r == smooth_alpha_spec(rgba@),
{
    let n = rgba.len();
    let mut k: usize = 0;
    proof {
        vstd::arithmetic::div_mod::lemma_fundamental_div_mod(n as int, 4);
    }
    while k < n / 4
        invariant
            n == rgba@.len(),
            0 <= k,
            4 * (n as int / 4) <= n <= 4 * (n as int / 4) + 3,
            forall|j: int|
                0 <= j < k ==> #[trigger] rgba@[4 * j + 3] == 0 || rgba@[4 * j + 3] == 255,
        decreases n / 4 - k,
    {
        let a = rgba[4 * k + 3];
        if a != 0 && a != 255 {
            assert(smooth_alpha_spec(rgba@));
            return true;
        }
        k = k + 1;
    }
    proof {
        assert forall|j: int| 0 <= j && 4 * j + 3 < n implies #[trigger] rgba@[4 * j + 3] == 0
            || rgba@[4 * j + 3] == 255 by {
            assert(j < n as int / 4);
        }
    }
    false
}

fn frame_ranks_before(a: &IcoFrame, b: &IcoFrame) -> (r: bool)
    ensures
        r == ranks_before(a@, b@),
{
    if a.has_smooth_alpha != b.has_smooth_alpha {
        a.has_smooth_alpha
    } else if a.is_png != b.is_png {
        a.is_png
    } else {
        proof {
            assert((a.width as int) * (a.height as int) <= 0xffff_ffff * 0xffff_ffff
                && (b.width as int) * (b.height as int) <= 0xffff_ffff * 0xffff_ffff)
                by (nonlinear_arith)
                requires
                    a.width <= 0xffff_ffffu32,
                    a.height <= 0xffff_ffffu32,
                    b.width <= 0xffff_ffffu32,
                    b.height <= 0xffff_ffffu32,
            ;
        }
        let aa = (a.width as u64) * (a.height as u64);
        let ba = (b.width as u64) * (b.height as u64);
        aa > ba
    }
}

/// Orders frames by the quality key, best first, stably: frames tied on all
/// three key components keep their input order.
pub fn rank(frames: Vec<IcoFrame>) -> (r: Vec<IcoFrame>)
    ensures
        frame_views(r@) == sort_spec(frame_views(frames@)),
{
    let ghost orig = frames@;
    let mut rest = frames;
    let mut out: Vec<IcoFrame> = Vec::new();
    let ghost mut done: int = 0;
    while rest.len() > 0
        invariant
            0 <= done <= orig.len(),
            rest@ =~= orig.skip(done),
            frame_views(out@) == sort_spec(frame_views(orig.take(done))),
        decreases rest@.len(),
    {
        let f = rest.remove(0);
        proof {
            assert(orig.skip(done).remove(0) =~= orig.skip(done + 1));
            assert(f == orig[done]);
        }
        let ghost sorted_prefix = frame_views(out@);
        let mut j: usize = 0;
        while j < out.len() && !frame_ranks_before(&f, &out[j])
            invariant
                0 <= j <= out.len(),
                frame_views(out@) == sorted_prefix,
                forall|m: int| 0 <= m < j ==> !ranks_before(f@, #[trigger] sorted_prefix[m]),
            decreases out@.len() - j,
        {
            assert(sorted_prefix[j as int] == out@[j as int]@);
            j = j + 1;
        }
        proof {
            if j < out@.len() {
                assert(sorted_prefix[j as int] == out@[j as int]@);
            }
            lemma_insert_sorted_at(sorted_prefix, f@, j as int);
        }
        out.insert(j, f);
        proof {
            assert(frame_views(out@) =~= sorted_prefix.insert(j as int, f@));
            assert(frame_views(orig.take(done + 1)).drop_last() =~= frame_views(
                orig.take(done),
            ));
            assert(frame_views(orig.take(done + 1)).last() == f@);
            done = done + 1;
        }
    }
    proof {
        assert(orig.take(done) =~= orig);
    }
    out
}

} // verus!
