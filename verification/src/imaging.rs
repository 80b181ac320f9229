//! Perceptual hashes and JPEG previews of image files, computed on the
//! bytes that were read from disk, and the cache entries built from them.
use std::io::Cursor;

use vstd::prelude::*;

use crate::digest::{preview_key_of, preview_path};
use crate::hashcache::{decoded_hash, new_cache_entry, FolderHashEntry};
use crate::paths::{join, path_extension, path_extension_of};
use crate::text::{cat2, cat3};

verus! {

/// The perceptual hash (image_hasher's default configuration) of the image
/// that `bytes` encode, read in the format that the file extension `ext`
/// names unless the bytes begin with a known signature; or the message of the
/// error that stopped decoding.
pub uninterp spec fn perceptual_hash_of(ext: Option<Seq<char>>, bytes: Seq<u8>) -> Result<Seq<u8>, Seq<char>>;

/// Decodes `bytes` with `image::ImageReader`, the format set from the file
/// extension (`ImageFormat::from_extension`, as `ImageReader::open` takes it
/// from the path) and replaced by the one `with_guessed_format` finds in the
/// bytes, then hashes the image with `HasherConfig::new().to_hasher()`.
/// Trusted: the outcome is `perceptual_hash_of(ext, bytes)`, and a hash of
/// the default configuration takes 8 bytes, as `HasherConfig` documents.
/// Where the extension names no format and the bytes carry no known
/// signature, `open` would name the extension in its error; here the error
/// is the reader's for an unknown format.
#[verifier::external_body]
fn perceptual_hash(ext: Option<&str>, bytes: &Vec<u8>) -> (res: Result<Vec<u8>, String>)
    ensures
        match (res, perceptual_hash_of(opt_str(ext), bytes@)) {
            (Ok(h), Ok(g)) => h@ == g && h@.len() == 8,
            (Err(e), Err(m)) => e@ == m,
            _ => false,
        },
{
    let mut reader = image::ImageReader::new(Cursor::new(bytes));
    if let Some(f) = ext.and_then(image::ImageFormat::from_extension) {
        reader.set_format(f);
    }
    let img = reader.with_guessed_format().map_err(|e| e.to_string())?.decode().map_err(|e| e.to_string())?;
    Ok(image_hasher::HasherConfig::new().to_hasher().hash_image(&img).as_bytes().to_vec())
}

/// The side, in pixels, of the square that a preview fits in.
pub const PREVIEW_SIZE: u32 = 512;

/// The JPEG preview (fitted into `size` by `size` pixels, RGB) of the image
/// that `bytes` encode, read as for `perceptual_hash_of`; on failure,
/// whether the image had decoded (so that encoding the JPEG failed), and the
/// error's message.
pub uninterp spec fn preview_jpeg_of(ext: Option<Seq<char>>, bytes: Seq<u8>, size: u32) -> Result<
    Seq<u8>,
    (bool, Seq<char>),
>;

/// Decodes `bytes` as `perceptual_hash` does, shrinks the image with
/// `DynamicImage::thumbnail(size, size)`, converts it with `to_rgb8` and
/// writes it as JPEG (`ImageBuffer::write_to`, the encoder that `save` uses
/// for a `.jpg` path). Trusted: the outcome is `preview_jpeg_of(ext, bytes,
/// size)`.
#[verifier::external_body]
fn preview_jpeg(ext: Option<&str>, bytes: &Vec<u8>, size: u32) -> (res: Result<Vec<u8>, (bool, String)>)
    ensures
        match (res, preview_jpeg_of(opt_str(ext), bytes@, size)) {
            (Ok(j), Ok(k)) => j@ == k,
            (Err((d, e)), Err((c, m))) => d == c && e@ == m,
            _ => false,
        },
{
    let mut reader = image::ImageReader::new(Cursor::new(bytes));
    if let Some(f) = ext.and_then(image::ImageFormat::from_extension) {
        reader.set_format(f);
    }
    let img = reader.with_guessed_format().map_err(|e| (false, e.to_string()))?.decode().map_err(
        |e| (false, e.to_string()),
    )?;
    let mut out = Cursor::new(Vec::new());
    img.thumbnail(size, size).to_rgb8().write_to(&mut out, image::ImageFormat::Jpeg).map_err(
        |e| (true, e.to_string()),
    )?;
    Ok(out.into_inner())
}

/// The view of an optional text.
pub open spec fn opt_str(o: Option<&str>) -> Option<Seq<char>> {
    match o {
        Some(s) => Some(s@),
        None => None,
    }
}

/// The text under which a hash is stored (`ImageHash::to_base64`).
pub uninterp spec fn hash_base64(hash: Seq<u8>) -> Seq<char>;

/// Calls `image_hasher::ImageHash::from_bytes` and then `to_base64`.
/// Trusted: the text is `hash_base64(hash)`, and it decodes back to the same
/// bytes, since `to_base64` and `from_base64` use the same base64 engine
/// (`STANDARD_NO_PAD`) and `from_bytes` accepts any non-empty slice for the
/// default byte container.
#[verifier::external_body]
fn hash_to_base64(hash: &Vec<u8>) -> (res: String)
    requires
        hash@.len() > 0,
    ensures
        res@ == hash_base64(hash@),
        decoded_hash(res@) == Some(hash@),
{
    match image_hasher::ImageHash::<Box<[u8]>>::from_bytes(hash) {
        Ok(h) => h.to_base64(),
        Err(_) => String::new(),
    }
}

/// Hashes the bytes of the image file at `path`, its format named by the
/// path's extension.
fn hash_bytes(path: &str, bytes: &Vec<u8>) -> (res: Result<Vec<u8>, String>)
    ensures
        match (res, perceptual_hash_of(path_extension(path@), bytes@)) {
            (Ok(h), Ok(g)) => h@ == g && h@.len() == 8,
            (Err(e), Err(m)) => e@ == m,
            _ => false,
        },
{
    let ext = path_extension_of(path);
    let ext_ref = match &ext {
        Some(e) => Some(e.as_str()),
        None => None,
    };
    perceptual_hash(ext_ref, bytes)
}

/// The outcome of reading a file, as plain values.
pub open spec fn read_view(read: Result<Vec<u8>, String>) -> Result<Seq<u8>, Seq<char>> {
    match read {
        Ok(b) => Ok(b@),
        Err(e) => Err(e@),
    }
}

/// The hash of the image file at `path`, given what reading it gave: a read
/// error reads `"<path>: open: <error>"`, a decoding error `"<path>: <error>"`.
pub open spec fn file_hash_of(path: Seq<char>, read: Result<Seq<u8>, Seq<char>>) -> Result<Seq<u8>, Seq<char>> {
    match read {
        Err(e) => Err(path + ": open: "@ + e),
        Ok(b) => match perceptual_hash_of(path_extension(path), b) {
            Ok(h) => Ok(h),
            Err(m) => Err(path + ": "@ + m),
        },
    }
}

/// Hashes the image file at `path` from the bytes read from it.
pub fn hash_file(path: &str, read: Result<Vec<u8>, String>) -> (res: Result<Vec<u8>, String>)
    ensures
        match res {
            Ok(h) => file_hash_of(path@, read_view(read)) == Ok::<Seq<u8>, Seq<char>>(h@) && h@.len() == 8,
            Err(e) => file_hash_of(path@, read_view(read)) == Err::<Seq<u8>, Seq<char>>(e@),
        },
{
    match read {
        Err(e) => Err(cat3(path, ": open: ", e.as_str())),
        Ok(bytes) => match hash_bytes(path, &bytes) {
            Ok(h) => Ok(h),
            Err(m) => Err(cat3(path, ": ", m.as_str())),
        },
    }
}

/// The hash text of a thumbnail, given what reading it gave.
pub open spec fn thumbnail_hash_of(path: Seq<char>, read: Result<Seq<u8>, Seq<char>>) -> Result<Seq<char>, Seq<char>> {
    match file_hash_of(path, read) {
        Ok(h) => Ok(hash_base64(h)),
        Err(e) => Err(e),
    }
}

/// Hashes a downloaded thumbnail and gives the text it is stored under,
/// which decodes back to the hash.
pub fn thumbnail_hash(path: &str, read: Result<Vec<u8>, String>) -> (res: Result<String, String>)
    ensures
        match res {
            Ok(t) => {
                &&& thumbnail_hash_of(path@, read_view(read)) == Ok::<Seq<char>, Seq<char>>(t@)
                &&& file_hash_of(path@, read_view(read)) matches Ok(h) && decoded_hash(t@) == Some(h)
            },
            Err(e) => thumbnail_hash_of(path@, read_view(read)) == Err::<Seq<char>, Seq<char>>(e@),
        },
{
    let h = hash_file(path, read)?;
    Ok(hash_to_base64(&h))
}

/// The message of a preview that could not be stored.
pub open spec fn preview_save_msg(e: Seq<char>) -> Seq<char> {
    "preview save: "@ + e
}

/// The message of a preview that could not be written to disk.
pub fn preview_save_message(e: &str) -> (res: String)
    ensures
        res@ == preview_save_msg(e@),
{
    cat2("preview save: ", e)
}

/// The JPEG preview of the image at `path`, given its bytes: a decoding
/// error reads `"<path>: <error>"`, an encoding error as a failed save.
pub open spec fn preview_of(path: Seq<char>, bytes: Seq<u8>) -> Result<Seq<u8>, Seq<char>> {
    match preview_jpeg_of(path_extension(path), bytes, PREVIEW_SIZE) {
        Ok(j) => Ok(j),
        Err((decoded, m)) => if decoded {
            Err(preview_save_msg(m))
        } else {
            Err(path + ": "@ + m)
        },
    }
}

fn render(path: &str, bytes: &Vec<u8>) -> (res: Result<Vec<u8>, String>)
    ensures
        match res {
            Ok(j) => preview_of(path@, bytes@) == Ok::<Seq<u8>, Seq<char>>(j@),
            Err(e) => preview_of(path@, bytes@) == Err::<Seq<u8>, Seq<char>>(e@),
        },
{
    let ext = path_extension_of(path);
    let ext_ref = match &ext {
        Some(e) => Some(e.as_str()),
        None => None,
    };
    match preview_jpeg(ext_ref, bytes, PREVIEW_SIZE) {
        Ok(j) => Ok(j),
        Err((decoded, m)) => {
            if decoded {
                Err(preview_save_message(m.as_str()))
            } else {
                Err(cat3(path, ": ", m.as_str()))
            }
        },
    }
}

/// The preview to write for the image file at `path`, given what reading
/// it gave (a read error reads `"<path>: open: <error>"`).
pub open spec fn rendered_preview_of(path: Seq<char>, read: Result<Seq<u8>, Seq<char>>) -> Result<Seq<u8>, Seq<char>> {
    match read {
        Err(e) => Err(path + ": open: "@ + e),
        Ok(b) => preview_of(path, b),
    }
}

/// Renders the preview of the image file at `path` from the bytes read
/// from it, without hashing it; the caller writes the JPEG where
/// `preview_path` puts it.
pub fn render_preview(path: &str, read: Result<Vec<u8>, String>) -> (res: Result<Vec<u8>, String>)
    ensures
        match res {
            Ok(j) => rendered_preview_of(path@, read_view(read)) == Ok::<Seq<u8>, Seq<char>>(j@),
            Err(e) => rendered_preview_of(path@, read_view(read)) == Err::<Seq<u8>, Seq<char>>(e@),
        },
{
    match read {
        Err(e) => Err(cat3(path, ": open: ", e.as_str())),
        Ok(bytes) => render(path, &bytes),
    }
}

/// A hashed file: its hash, where its preview is kept, and the JPEG to
/// write there when no preview was on disk yet.
#[derive(Debug)]
pub struct HashedFile {
    pub hash: Vec<u8>,
    pub preview_path: String,
    pub preview_jpeg: Option<Vec<u8>>,
}

/// Hashes the image file at `path` from the bytes read from it, and, when
/// its preview under `preview_dir` is not on disk yet, renders it: the hash
/// is `file_hash_of`, the preview path `preview_path`, and the JPEG (only
/// where none existed) `preview_of`; the first failure is the error.
pub fn hash_and_preview(path: &str, preview_dir: &str, read: Result<Vec<u8>, String>, preview_exists: bool) -> (res:
    Result<HashedFile, String>)
    ensures
        match res {
            Ok(f) => {
                &&& file_hash_of(path@, read_view(read)) == Ok::<Seq<u8>, Seq<char>>(f.hash@)
                &&& f.hash@.len() == 8
                &&& f.preview_path@ == join(preview_dir@, preview_key_of(path@) + ".jpg"@)
                &&& match f.preview_jpeg {
                    Some(j) => {
                        &&& !preview_exists
                        &&& read matches Ok(b) && preview_of(path@, b@) == Ok::<Seq<u8>, Seq<char>>(j@)
                    },
                    None => preview_exists,
                }
            },
            Err(e) => match file_hash_of(path@, read_view(read)) {
                Err(m) => e@ == m,
                Ok(_) => {
                    &&& !preview_exists
                    &&& read matches Ok(b) && preview_of(path@, b@) == Err::<Seq<u8>, Seq<char>>(e@)
                },
            },
        },
{
    let bytes = match read {
        Err(e) => {
            return Err(cat3(path, ": open: ", e.as_str()));
        },
        Ok(b) => b,
    };
    let hash = match hash_bytes(path, &bytes) {
        Ok(h) => h,
        Err(m) => {
            return Err(cat3(path, ": ", m.as_str()));
        },
    };
    let target = preview_path(preview_dir, path);
    if preview_exists {
        Ok(HashedFile { hash, preview_path: target, preview_jpeg: None })
    } else {
        let jpeg = render(path, &bytes)?;
        Ok(HashedFile { hash, preview_path: target, preview_jpeg: Some(jpeg) })
    }
}

/// The folder-hash cache entry of a freshly hashed file: its time stamp and
/// size, the text of its hash (which decodes back to it), and the file name
/// of its preview; nothing when the preview path has no file name.
pub fn fresh_folder_entry(mtime: u64, size: u64, hash: &Vec<u8>, preview_path: &str) -> (res: Option<FolderHashEntry>)
    requires
        hash@.len() > 0,
    ensures
        match crate::paths::file_name(preview_path@) {
            Some(n) => res matches Some(e) && e.mtime_secs == mtime && e.size == size && e.hash_b64@
                == hash_base64(hash@) && decoded_hash(e.hash_b64@) == Some(hash@) && e.preview_filename@ == n,
            None => res is None,
        },
{
    let text = hash_to_base64(hash);
    new_cache_entry(mtime, size, text, preview_path)
}

} // verus!
