//! Leaf classification: which file names count as images, and whether a
//! leaf's files are image-dominant (strictly more image files than others).
use vstd::prelude::*;
use crate::text::{lower_seq, matches_lowered};

verus! {

/// The extension of a file name scanned backwards from position `i`: the part
/// after the last dot, provided that dot is not the leading character.
pub open spec fn spec_ext_from(name: Seq<char>, i: int) -> Option<Seq<char>>
    decreases i,
{
    if i < 1 {
        None
    } else if name[i] == '.' {
        Some(name.subrange(i + 1, name.len() as int))
    } else {
        spec_ext_from(name, i - 1)
    }
}

/// The extension of a file name: the part after the last dot, none when there
/// is no dot or the only dot leads the name (a hidden file has no extension).
pub open spec fn spec_extension(name: Seq<char>) -> Option<Seq<char>> {
    spec_ext_from(name, name.len() - 1)
}

/// The recognized image extensions, already lower-cased.
pub open spec fn is_image_ext(e: Seq<char>) -> bool {
    ||| e == "jpg"@
    ||| e == "jpeg"@
    ||| e == "png"@
    ||| e == "gif"@
    ||| e == "bmp"@
    ||| e == "webp"@
    ||| e == "tiff"@
    ||| e == "avif"@
    ||| e == "heic"@
    ||| e == "svg"@
}

/// A file name counts as an image when its extension, lower-cased, is one of
/// the recognized image extensions.
pub open spec fn spec_is_image(name: Seq<char>) -> bool {
    match spec_extension(name) {
        Some(e) => is_image_ext(lower_seq(e)),
        None => false,
    }
}

/// Decides whether a file name is an image, by its extension alone,
/// case-insensitively.
pub fn is_image_file(name: &str) -> (r: bool)
    ensures
        r == spec_is_image(name@),
{
    let len = name.unicode_len();
    let mut j: usize = len;
    loop
        invariant
            j <= len,
            len == name@.len(),
            spec_extension(name@) == if j > 0 {
                spec_ext_from(name@, j - 1)
            } else {
                None::<Seq<char>>
            },
        decreases j,
    {
        if j <= 1 {
            return false;
        }
        j = j - 1;
        let c = name.get_char(j);
        if c == '.' {
            let start = j + 1;
            proof {
                assert(spec_extension(name@) == Some(
                    name@.subrange(start as int, name@.len() as int),
                ));
            }
            let r = matches_lowered(name, start, "jpg") || matches_lowered(name, start, "jpeg")
                || matches_lowered(name, start, "png") || matches_lowered(name, start, "gif")
                || matches_lowered(name, start, "bmp") || matches_lowered(name, start, "webp")
                || matches_lowered(name, start, "tiff") || matches_lowered(name, start, "avif")
                || matches_lowered(name, start, "heic") || matches_lowered(name, start, "svg");
            return r;
        }
    }
}

/// How many of the given file names are images.
pub open spec fn count_images(names: Seq<Seq<char>>) -> int
    decreases names.len(),
{
    if names.len() == 0 {
        0
    } else {
        count_images(names.drop_last()) + if spec_is_image(names.last()) {
            1int
        } else {
            0int
        }
    }
}

/// A file list is image-dominant when it is non-empty and its image files
/// strictly outnumber all its other files.
pub open spec fn spec_image_dominant(names: Seq<Seq<char>>) -> bool {
    names.len() > 0 && count_images(names) > names.len() - count_images(names)
}

/// Counts the image files among the given names.
pub fn count_image_files(names: &Vec<String>) -> (n: usize)
    ensures
        n == count_images(names.deep_view()),
        n <= names.len(),
{
    let mut n: usize = 0;
    let mut i: usize = 0;
    while i < names.len()
        invariant
            i <= names@.len(),
            n <= i,
            n == count_images(names.deep_view().take(i as int)),
        decreases names@.len() - i,
    {
        proof {
            assert(names.deep_view().take(i + 1).drop_last() =~= names.deep_view().take(i as int));
            assert(names.deep_view().take(i + 1).last() == names@[i as int]@);
        }
        if is_image_file(names[i].as_str()) {
            n = n + 1;
        }
        i = i + 1;
    }
    proof {
        assert(names.deep_view().take(names@.len() as int) =~= names.deep_view());
    }
    n
}

/// Decides image dominance for a leaf's file names: non-empty, and strictly
/// more images than non-images.
pub fn image_dominant(names: &Vec<String>) -> (r: bool)
    ensures
        r == spec_image_dominant(names.deep_view()),
{
    let imgs = count_image_files(names);
    names.len() > 0 && imgs > names.len() - imgs
}

} // verus!
