//! Image metadata assembly: the record handed to the frontend, the EXIF
//! tag-to-field mapping, timestamp normalization, and the folder-listing
//! helpers that pick out image files.

use vstd::prelude::*;
use crate::apps::{opt_str_view, strs_views};
use crate::text::{
    base_name, base_name_spec, dir_prefix, dir_prefix_spec, eq_fold, eq_ignore_case, extension_of,
    extension_spec, stem_of, stem_spec, str_eq,
};

verus! {

/// Seconds since the epoch, or 0 for a missing or pre-epoch timestamp.
pub open spec fn to_unix_spec(t: Option<u64>) -> u64 {
    match t {
        Some(s) => s,
        None => 0,
    }
}

/// Normalizes an optional epoch timestamp, substituting 0 when absent.
pub fn to_unix(t: Option<u64>) -> (r: u64)
    ensures
        r == to_unix_spec(t),
{
    match t {
        Some(s) => s,
        None => 0,
    }
}

/// The value of the last entry carrying the given tag, or nothing.
pub open spec fn last_tag_value(entries: Seq<(Seq<char>, Seq<char>)>, tag: Seq<char>) -> Option<
    Seq<char>,
>
    decreases entries.len(),
{
    if entries.len() == 0 {
        None
    } else if entries.last().0 == tag {
        Some(entries.last().1)
    } else {
        last_tag_value(entries.drop_last(), tag)
    }
}

/// The views of a vector of (tag, value) pairs.
pub open spec fn pairs_views(v: Seq<(String, String)>) -> Seq<(Seq<char>, Seq<char>)> {
    v.map_values(|e: (String, String)| (e.0@, e.1@))
}

/// The EXIF-derived fields of the metadata record.
pub struct ExifFields {
    pub date_taken: Option<String>,
    pub camera: Option<String>,
    pub aperture: Option<String>,
    pub shutter: Option<String>,
    pub iso: Option<String>,
    pub focal: Option<String>,
    pub flash: Option<String>,
    pub color_profile: Option<String>,
}

/// Maps EXIF (tag, readable value) entries to the metadata fields: for each
/// recognized tag the last entry wins; unrecognized tags are ignored.
pub fn exif_fields(entries: &Vec<(String, String)>) -> (r: ExifFields)
    ensures
        opt_str_view(r.date_taken) == last_tag_value(pairs_views(entries@), "DateTimeOriginal"@),
        opt_str_view(r.camera) == last_tag_value(pairs_views(entries@), "Model"@),
        opt_str_view(r.aperture) == last_tag_value(pairs_views(entries@), "FNumber"@),
        opt_str_view(r.shutter) == last_tag_value(pairs_views(entries@), "ExposureTime"@),
        opt_str_view(r.iso) == last_tag_value(pairs_views(entries@), "ISOSpeedRatings"@),
        opt_str_view(r.focal) == last_tag_value(pairs_views(entries@), "FocalLength"@),
        opt_str_view(r.flash) == last_tag_value(pairs_views(entries@), "Flash"@),
        opt_str_view(r.color_profile) == last_tag_value(pairs_views(entries@), "ColorSpace"@),
{
    let ghost es = pairs_views(entries@);
    let n = entries.len();
    let mut r = ExifFields {
        date_taken: None,
        camera: None,
        aperture: None,
        shutter: None,
        iso: None,
        focal: None,
        flash: None,
        color_profile: None,
    };
    let mut i: usize = 0;
    proof {
        assert(es.take(0) =~= Seq::<(Seq<char>, Seq<char>)>::empty());
    }
    while i < n
        invariant
            n == entries@.len(),
            es == pairs_views(entries@),
            0 <= i <= n,
            opt_str_view(r.date_taken) == last_tag_value(es.take(i as int), "DateTimeOriginal"@),
            opt_str_view(r.camera) == last_tag_value(es.take(i as int), "Model"@),
            opt_str_view(r.aperture) == last_tag_value(es.take(i as int), "FNumber"@),
            opt_str_view(r.shutter) == last_tag_value(es.take(i as int), "ExposureTime"@),
            opt_str_view(r.iso) == last_tag_value(es.take(i as int), "ISOSpeedRatings"@),
            opt_str_view(r.focal) == last_tag_value(es.take(i as int), "FocalLength"@),
            opt_str_view(r.flash) == last_tag_value(es.take(i as int), "Flash"@),
            opt_str_view(r.color_profile) == last_tag_value(es.take(i as int), "ColorSpace"@),
        decreases n - i,
    {
        proof {
            reveal_strlit("DateTimeOriginal");
            reveal_strlit("Model");
            reveal_strlit("FNumber");
            reveal_strlit("ExposureTime");
            reveal_strlit("ISOSpeedRatings");
            reveal_strlit("FocalLength");
            reveal_strlit("Flash");
            reveal_strlit("ColorSpace");
            assert(es[i as int] == (entries@[i as int].0@, entries@[i as int].1@));
            assert(es.take(i + 1).drop_last() =~= es.take(i as int));
            assert(es.take(i + 1).last() == es[i as int]);
        }
        let tag = &entries[i].0;
        let v = entries[i].1.clone();
        if str_eq(tag.as_str(), "DateTimeOriginal") {
            r.date_taken = Some(v);
        } else if str_eq(tag.as_str(), "Model") {
            r.camera = Some(v);
        } else if str_eq(tag.as_str(), "FNumber") {
            r.aperture = Some(v);
        } else if str_eq(tag.as_str(), "ExposureTime") {
            r.shutter = Some(v);
        } else if str_eq(tag.as_str(), "ISOSpeedRatings") {
            r.iso = Some(v);
        } else if str_eq(tag.as_str(), "FocalLength") {
            r.focal = Some(v);
        } else if str_eq(tag.as_str(), "Flash") {
            r.flash = Some(v);
        } else if str_eq(tag.as_str(), "ColorSpace") {
            r.color_profile = Some(v);
        }
        proof {
            assert(opt_str_view(r.date_taken) == last_tag_value(
                es.take(i + 1),
                "DateTimeOriginal"@,
            ) && opt_str_view(r.camera) == last_tag_value(es.take(i + 1), "Model"@)
                && opt_str_view(r.aperture) == last_tag_value(es.take(i + 1), "FNumber"@)
                && opt_str_view(r.shutter) == last_tag_value(es.take(i + 1), "ExposureTime"@)
                && opt_str_view(r.iso) == last_tag_value(es.take(i + 1), "ISOSpeedRatings"@)
                && opt_str_view(r.focal) == last_tag_value(es.take(i + 1), "FocalLength"@)
                && opt_str_view(r.flash) == last_tag_value(es.take(i + 1), "Flash"@)
                && opt_str_view(r.color_profile) == last_tag_value(es.take(i + 1), "ColorSpace"@))
                by {
                assert(tag@ == es[i as int].0);
                assert(es.take(i + 1).last().0 == tag@);
                reveal_strlit("DateTimeOriginal");
                reveal_strlit("Model");
                reveal_strlit("FNumber");
                reveal_strlit("ExposureTime");
                reveal_strlit("ISOSpeedRatings");
                reveal_strlit("FocalLength");
                reveal_strlit("Flash");
                reveal_strlit("ColorSpace");
                // "Model" and "Flash" have equal length: tell them apart by a
                // character, where length alone separates every other pair
                assert("Model"@[0] == 'M');
                assert("Flash"@[0] == 'F');
            }
        }
        i = i + 1;
    }
    proof {
        assert(es.take(n as int) =~= es);
    }
    r
}

/// The metadata record for one image file, as handed to the frontend.
pub struct ImageInfoBackend {
    pub file_name: String,
    pub format: String,
    pub width: u32,
    pub height: u32,
    pub file_size: u64,
    pub color_mode: String,
    pub bit_depth: u8,
    pub alpha: bool,
    pub date_taken: Option<String>,
    pub camera: Option<String>,
    pub aperture: Option<String>,
    pub shutter: Option<String>,
    pub iso: Option<String>,
    pub focal: Option<String>,
    pub flash: Option<String>,
    pub color_profile: Option<String>,
    pub full_path: String,
    pub created: u64,
    pub modified: u64,
}

/// Assembles the metadata record from the decoded image properties, the
/// file's size and timestamps, and its EXIF entries.
pub fn load_image_metadata(
    path: String,
    format: String,
    width: u32,
    height: u32,
    file_size: u64,
    color_mode: String,
    bit_depth: u8,
    alpha: bool,
    created: Option<u64>,
    modified: Option<u64>,
    exif_entries: &Vec<(String, String)>,
) -> (r: ImageInfoBackend)
    ensures
        r.file_name@ == base_name_spec(path@),
        r.format == format,
        r.width == width,
        r.height == height,
        r.file_size == file_size,
        r.color_mode == color_mode,
        r.bit_depth == bit_depth,
        r.alpha == alpha,
        r.created == to_unix_spec(created),
        r.modified == to_unix_spec(modified),
        r.full_path == path,
        opt_str_view(r.date_taken) == last_tag_value(
            pairs_views(exif_entries@),
            "DateTimeOriginal"@,
        ),
        opt_str_view(r.camera) == last_tag_value(pairs_views(exif_entries@), "Model"@),
        opt_str_view(r.aperture) == last_tag_value(pairs_views(exif_entries@), "FNumber"@),
        opt_str_view(r.shutter) == last_tag_value(pairs_views(exif_entries@), "ExposureTime"@),
        opt_str_view(r.iso) == last_tag_value(pairs_views(exif_entries@), "ISOSpeedRatings"@),
        opt_str_view(r.focal) == last_tag_value(pairs_views(exif_entries@), "FocalLength"@),
        opt_str_view(r.flash) == last_tag_value(pairs_views(exif_entries@), "Flash"@),
        opt_str_view(r.color_profile) == last_tag_value(pairs_views(exif_entries@), "ColorSpace"@),
{
    let file_name = String::from_str(base_name(path.as_str()));
    let exif = exif_fields(exif_entries);
    ImageInfoBackend {
        file_name,
        format,
        width,
        height,
        file_size,
        color_mode,
        bit_depth,
        alpha,
        date_taken: exif.date_taken,
        camera: exif.camera,
        aperture: exif.aperture,
        shutter: exif.shutter,
        iso: exif.iso,
        focal: exif.focal,
        flash: exif.flash,
        color_profile: exif.color_profile,
        full_path: path,
        created: to_unix(created),
        modified: to_unix(modified),
    }
}

/// The extensions the viewer recognizes as images, compared case-folded.
pub open spec fn image_ext(e: Seq<char>) -> bool {
    ||| eq_fold(e, "jpg"@)
    ||| eq_fold(e, "jpeg"@)
    ||| eq_fold(e, "png"@)
    ||| eq_fold(e, "bmp"@)
    ||| eq_fold(e, "gif"@)
    ||| eq_fold(e, "webp"@)
    ||| eq_fold(e, "ico"@)
    ||| eq_fold(e, "avif"@)
    ||| eq_fold(e, "cur"@)
    ||| eq_fold(e, "tiff"@)
    ||| eq_fold(e, "tif"@)
    ||| eq_fold(e, "svg"@)
    ||| eq_fold(e, "jfif"@)
}

/// A path whose file name carries a recognized image extension.
pub open spec fn is_image_path(p: Seq<char>) -> bool {
    match extension_spec(base_name_spec(p)) {
        Some(e) => image_ext(e),
        None => false,
    }
}

/// Whether the path names a file with a recognized image extension.
pub fn is_image_file(p: &str) -> (r: bool)
    ensures
        r == is_image_path(p@),
{
    let name = base_name(p);
    match extension_of(name) {
        Some(e) => eq_ignore_case(e, "jpg") || eq_ignore_case(e, "jpeg") || eq_ignore_case(
            e,
            "png",
        ) || eq_ignore_case(e, "bmp") || eq_ignore_case(e, "gif") || eq_ignore_case(e, "webp")
            || eq_ignore_case(e, "ico") || eq_ignore_case(e, "avif") || eq_ignore_case(e, "cur")
            || eq_ignore_case(e, "tiff") || eq_ignore_case(e, "tif") || eq_ignore_case(e, "svg")
            || eq_ignore_case(e, "jfif"),
        None => false,
    }
}

/// The image files of a directory listing, in listing order.
pub open spec fn image_filter(ps: Seq<Seq<char>>) -> Seq<Seq<char>> {
    ps.filter(|p: Seq<char>| is_image_path(p))
}

/// Keeps the paths that name image files, preserving their order.
pub fn filter_image_paths(paths: Vec<String>) -> (r: Vec<String>)
    ensures
        strs_views(r@) == image_filter(strs_views(paths@)),
{
    let ghost origv = paths@;
    let ghost orig = strs_views(paths@);
    let mut rest = paths;
    let mut out: Vec<String> = Vec::new();
    let ghost mut done: int = 0;
    proof {
        reveal_with_fuel(Seq::filter, 1);
        assert(orig.take(0) =~= Seq::<Seq<char>>::empty());
    }
    while rest.len() > 0
        invariant
            0 <= done <= orig.len(),
            orig == strs_views(origv),
            rest@ =~= origv.skip(done),
            strs_views(out@) == image_filter(orig.take(done)),
        decreases rest@.len(),
    {
        let p = rest.remove(0);
        proof {
            assert(origv.skip(done).remove(0) =~= origv.skip(done + 1));
            assert(p == origv[done]);
            assert(p@ == orig[done]);
            reveal_with_fuel(Seq::filter, 2);
            assert(orig.take(done + 1).drop_last() =~= orig.take(done));
            assert(orig.take(done + 1).last() == orig[done]);
        }
        let keep = is_image_file(p.as_str());
        if keep {
            out.push(p);
            proof {
                assert(strs_views(out@) =~~= image_filter(orig.take(done + 1)));
            }
        } else {
            proof {
                assert(image_filter(orig.take(done + 1)) =~= image_filter(orig.take(done)));
            }
        }
        proof {
            done = done + 1;
        }
    }
    proof {
        assert(orig.take(done) =~= orig);
    }
    out
}

/// Index of the first path equal to `t`, or -1 if there is none.
pub open spec fn position_of(ps: Seq<Seq<char>>, t: Seq<char>) -> int
    decreases ps.len(),
{
    if ps.len() == 0 {
        -1
    } else if ps[0] == t {
        0
    } else {
        let r = position_of(ps.drop_first(), t);
        if r == -1 {
            -1
        } else {
            r + 1
        }
    }
}

proof fn lemma_position_found(ps: Seq<Seq<char>>, t: Seq<char>, i: int)
    requires
        0 <= i < ps.len(),
        ps[i] == t,
        forall|j: int| 0 <= j < i ==> ps[j] != t,
    ensures
        position_of(ps, t) == i,
    decreases i,
{
    if i > 0 {
        lemma_position_found(ps.drop_first(), t, i - 1);
    }
}

proof fn lemma_position_missing(ps: Seq<Seq<char>>, t: Seq<char>)
    requires
        forall|j: int| 0 <= j < ps.len() ==> ps[j] != t,
    ensures
        position_of(ps, t) == -1,
    decreases ps.len(),
{
    if ps.len() > 0 {
        lemma_position_missing(ps.drop_first(), t);
    }
}

/// Position of `current` in the listing, or 0 when it does not occur.
pub fn image_index(paths: &Vec<String>, current: &String) -> (idx: usize)
    ensures
        position_of(strs_views(paths@), current@) >= 0 ==> idx == position_of(
            strs_views(paths@),
            current@,
        ),
        position_of(strs_views(paths@), current@) == -1 ==> idx == 0,
{
    let ghost ps = strs_views(paths@);
    let n = paths.len();
    let mut i: usize = 0;
    while i < n
        invariant
            n == paths@.len(),
            ps == strs_views(paths@),
            0 <= i <= n,
            forall|j: int| 0 <= j < i ==> ps[j] != current@,
        decreases n - i,
    {
        proof {
            assert(ps[i as int] == paths@[i as int]@);
        }
        if str_eq(paths[i].as_str(), current.as_str()) {
            proof {
                lemma_position_found(ps, current@, i as int);
            }
            return i;
        }
        i = i + 1;
    }
    proof {
        lemma_position_missing(ps, current@);
    }
    0
}

/// The file name that renaming gives: the new name, its extension replaced
/// by the old name's non-empty extension when the old name has one.
pub open spec fn renamed_file_spec(old_name: Seq<char>, new_name: Seq<char>) -> Seq<char> {
    match extension_spec(old_name) {
        Some(e) => if e.len() > 0 {
            stem_spec(new_name) + "."@ + e
        } else {
            new_name
        },
        None => new_name,
    }
}

/// The whole renamed path: the old path's directory part, then the renamed
/// file name.
pub open spec fn renamed_path_spec(path: Seq<char>, new_name: Seq<char>) -> Seq<char> {
    dir_prefix_spec(path) + renamed_file_spec(base_name_spec(path), new_name)
}

/// Computes the destination path of a rename: the file keeps its directory
/// and its old extension, and takes the new name's stem.  An empty source
/// path is rejected.
pub fn renamed_path(path: &str, new_name: &str) -> (r: Result<String, String>)
    ensures
        path@.len() == 0 <==> r is Err,
        r matches Ok(s) ==> s@ == renamed_path_spec(path@, new_name@),
        r matches Err(m) ==> m@ == "Invalid path"@,
{
    if path.unicode_len() == 0 {
        return Err(String::from_str("Invalid path"));
    }
    let name = base_name(path);
    let fname: String = match extension_of(name) {
        Some(e) => {
            if e.unicode_len() > 0 {
                String::from_str(stem_of(new_name)).concat(".").concat(e)
            } else {
                String::from_str(new_name)
            }
        },
        None => String::from_str(new_name),
    };
    Ok(String::from_str(dir_prefix(path)).concat(fname.as_str()))
}

} // verus!
