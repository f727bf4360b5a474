//! Icon-container decoding: parsing a multi-frame container, decoding every
//! frame to RGBA, re-encoding each as PNG, and ranking the result.

use vstd::prelude::*;
use crate::codec::{encode_png, png_encodable, png_encoding};
use crate::frames::{
    frame_views, has_smooth_alpha, rank, smooth_alpha_spec, sort_spec, FrameView, IcoFrame,
};

verus! {

/// The largest frame dimension the decoder accepts.  Icon frames are at most
/// a few hundred pixels wide in practice; an entry declaring more is treated
/// as malformed, which also keeps every pixel computation of the underlying
/// reader inside 32-bit arithmetic.
pub const MAX_FRAME_DIM: u32 = 4096;

#[verifier::external_type_specification]
#[verifier::external_body]
pub struct ExIconDir(ico::IconDir);

/// What one container entry holds: its compact-format (PNG) flag, its
/// declared pixel dimensions, and the outcome of decoding it — dimensions
/// and RGBA pixels, or nothing when the entry's data is malformed.
pub uninterp spec fn dir_frames(d: ico::IconDir) -> Seq<
    (bool, (u32, u32), Option<(u32, u32, Seq<u8>)>),
>;

/// What parsing a container's bytes yields: the sequence of entries, or
/// nothing when the leading directory structure is malformed.  Parsing is a
/// function of the bytes alone.
pub uninterp spec fn parsed_frames(bytes: Seq<u8>) -> Option<
    Seq<(bool, (u32, u32), Option<(u32, u32, Seq<u8>)>)>,
>;

/// Relies on ico::IconDir::read: it parses the directory and reads every
/// entry's declared data span eagerly, deterministically from the bytes.
#[verifier::external_body]
fn read_icon_dir(bytes: &Vec<u8>) -> (r: Result<ico::IconDir, String>)
    ensures
        r matches Ok(d) ==> parsed_frames(bytes@) == Some(dir_frames(d)),
        r is Err ==> parsed_frames(bytes@) is None,
{
    match ico::IconDir::read(std::io::Cursor::new(bytes.as_slice())) {
        Ok(d) => Ok(d),
        Err(e) => Err(format!("{}", e)),
    }
}

/// Relies on ico::IconDir::entries returning a slice with one element per
/// container entry.
#[verifier::external_body]
fn entry_count(dir: &ico::IconDir) -> (n: usize)
    ensures
        n == dir_frames(*dir).len(),
{
    dir.entries().len()
}

/// Relies on ico::IconDirEntry::is_png: true exactly when the entry's data
/// is stored in the embedded compact (PNG) format.
#[verifier::external_body]
fn entry_is_png(dir: &ico::IconDir, i: usize) -> (r: bool)
    requires
        i < dir_frames(*dir).len(),
    ensures
        r == dir_frames(*dir)[i as int].0,
{
    dir.entries()[i].is_png()
}

/// Relies on ico::IconDirEntry::width: the entry's declared pixel width,
/// replaced at read time by the width its embedded image data declares
/// whenever that data's header parses.
#[verifier::external_body]
fn entry_width(dir: &ico::IconDir, i: usize) -> (r: u32)
    requires
        i < dir_frames(*dir).len(),
    ensures
        r == (dir_frames(*dir)[i as int].1).0,
{
    dir.entries()[i].width()
}

/// Relies on ico::IconDirEntry::height: the entry's declared pixel height,
/// replaced at read time by the height its embedded image data declares
/// whenever that data's header parses.
#[verifier::external_body]
fn entry_height(dir: &ico::IconDir, i: usize) -> (r: u32)
    requires
        i < dir_frames(*dir).len(),
    ensures
        r == (dir_frames(*dir)[i as int].1).1,
{
    dir.entries()[i].height()
}

/// Relies on ico::IconDirEntry::decode and the ico::IconImage accessors: the
/// outcome is a function of the entry alone, and a decoded image's RGBA
/// buffer holds exactly 4 bytes per pixel with nonzero dimensions.  The
/// reader's raw-bitmap path multiplies the header-declared dimensions in
/// 32-bit arithmetic, so entries declaring dimensions beyond
/// `MAX_FRAME_DIM` are excluded by precondition instead of decoded; an
/// image whose header does not parse fails before that arithmetic, at the
/// same read that fixed the declared dimensions.
#[verifier::external_body]
fn decode_entry(dir: &ico::IconDir, i: usize) -> (r: Result<(u32, u32, Vec<u8>), String>)
    requires
        i < dir_frames(*dir).len(),
        (dir_frames(*dir)[i as int].1).0 <= MAX_FRAME_DIM,
        (dir_frames(*dir)[i as int].1).1 <= MAX_FRAME_DIM,
    ensures
        r matches Ok(f) ==> dir_frames(*dir)[i as int].2 == Some((f.0, f.1, f.2@)) && f.2@.len()
            == 4 * f.0 * f.1 && f.0 >= 1 && f.1 >= 1,
        r is Err ==> dir_frames(*dir)[i as int].2 is None,
{
    match dir.entries()[i].decode() {
        Ok(img) => Ok((img.width(), img.height(), img.rgba_data().to_vec())),
        Err(e) => Err(format!("{}", e)),
    }
}

/// The frame a successfully decoded entry becomes: its pixels re-encoded as
/// PNG, with the alpha-smoothness flag computed from the RGBA data.
pub open spec fn built_frame(e: (bool, (u32, u32), Option<(u32, u32, Seq<u8>)>)) -> FrameView {
    match e.2 {
        Some(f) => FrameView {
            width: f.0,
            height: f.1,
            has_smooth_alpha: smooth_alpha_spec(f.2),
            is_png: e.0,
            data: png_encoding(f.0, f.1, f.2),
        },
        None => FrameView {
            width: 0,
            height: 0,
            has_smooth_alpha: false,
            is_png: e.0,
            data: Seq::empty(),
        },
    }
}

/// The frames of a fully decoded entry sequence.
pub open spec fn built_frames(es: Seq<(bool, (u32, u32), Option<(u32, u32, Seq<u8>)>)>) -> Seq<
    FrameView,
> {
    es.map_values(|e: (bool, (u32, u32), Option<(u32, u32, Seq<u8>)>)| built_frame(e))
}

/// Every entry declares dimensions within the supported limit.
pub open spec fn within_limits(es: Seq<(bool, (u32, u32), Option<(u32, u32, Seq<u8>)>)>) -> bool {
    forall|i: int|
        0 <= i < es.len() ==> ((#[trigger] es[i]).1).0 <= MAX_FRAME_DIM && (es[i].1).1
            <= MAX_FRAME_DIM
}

/// Every entry of the sequence decoded successfully.
pub open spec fn all_decoded(es: Seq<(bool, (u32, u32), Option<(u32, u32, Seq<u8>)>)>) -> bool {
    forall|i: int| 0 <= i < es.len() ==> (#[trigger] es[i]).2 is Some
}

/// Every decoded entry's pixels can be re-encoded as PNG.
pub open spec fn all_encodable(es: Seq<(bool, (u32, u32), Option<(u32, u32, Seq<u8>)>)>) -> bool {
    forall|i: int|
        0 <= i < es.len() ==> match (#[trigger] es[i]).2 {
            Some(f) => png_encodable(f.0, f.1, f.2),
            None => true,
        }
}

/// Decodes an icon container into its frames, best quality first.
///
/// The call fails exactly when the leading directory cannot be parsed, when
/// any frame declares dimensions beyond `MAX_FRAME_DIM`, when any frame's
/// data is malformed, or when a frame cannot be re-encoded; an empty
/// container yields an empty sequence.
pub fn load_ico_frames(bytes: &Vec<u8>) -> (r: Result<Vec<IcoFrame>, String>)
    ensures
        parsed_frames(bytes@) is None ==> r is Err,
        (parsed_frames(bytes@) matches Some(es) && !within_limits(es)) ==> r is Err,
        (parsed_frames(bytes@) matches Some(es) && !all_decoded(es)) ==> r is Err,
        (parsed_frames(bytes@) matches Some(es) && within_limits(es) && all_decoded(es)
            && all_encodable(es)) ==> r is Ok,
        r matches Ok(v) ==> parsed_frames(bytes@) matches Some(es) && within_limits(es)
            && all_decoded(es) && frame_views(v@) == sort_spec(built_frames(es)),
        (parsed_frames(bytes@) matches Some(es) && es.len() == 0) ==> (r matches Ok(v)
            && v@.len() == 0),
{
    let dir = match read_icon_dir(bytes) {
        Ok(d) => d,
        Err(e) => {
            return Err(e);
        },
    };
    let ghost es = dir_frames(dir);
    let n = entry_count(&dir);
    let mut frames: Vec<IcoFrame> = Vec::new();
    let mut i: usize = 0;
    while i < n
        invariant
            n == es.len(),
            es == dir_frames(dir),
            parsed_frames(bytes@) == Some(es),
            0 <= i <= n,
            forall|j: int|
                0 <= j < i ==> ((#[trigger] es[j]).1).0 <= MAX_FRAME_DIM && (es[j].1).1
                    <= MAX_FRAME_DIM,
            forall|j: int| 0 <= j < i ==> (#[trigger] es[j]).2 is Some,
            frame_views(frames@) == built_frames(es.take(i as int)),
        decreases n - i,
    {
        let is_png = entry_is_png(&dir, i);
        let w0 = entry_width(&dir, i);
        let h0 = entry_height(&dir, i);
        if w0 > MAX_FRAME_DIM || h0 > MAX_FRAME_DIM {
            proof {
                assert(!within_limits(es));
            }
            return Err(String::from_str("Frame dimensions exceed the supported limit"));
        }
        let (w, h, rgba) = match decode_entry(&dir, i) {
            Ok(t) => t,
            Err(e) => {
                return Err(e);
            },
        };
        let smooth = has_smooth_alpha(&rgba);
        let data = match encode_png(w, h, &rgba) {
            Ok(d) => d,
            Err(e) => {
                proof {
                    assert(es[i as int].2 == Some((w, h, rgba@)));
                    assert(!all_encodable(es));
                }
                return Err(e);
            },
        };
        let frame = IcoFrame { width: w, height: h, has_smooth_alpha: smooth, is_png, data };
        frames.push(frame);
        proof {
            assert(es.take(i + 1).drop_last() =~= es.take(i as int));
            assert(built_frames(es.take(i + 1)) =~= built_frames(es.take(i as int)).push(
                built_frame(es[i as int]),
            ));
            assert(frame_views(frames@) =~~= built_frames(es.take(i + 1)));
        }
        i = i + 1;
    }
    proof {
        assert(es.take(n as int) =~= es);
        if es.len() == 0 {
            crate::frames::lemma_sort_spec_len(built_frames(es));
        }
    }
    let ranked = rank(frames);
    Ok(ranked)
}

} // verus!
