//! Hash worker: computes a perceptual fingerprint per file of a chunk,
//! skipping files that cannot be decoded, and reports one unit of progress
//! per file either way.

use vstd::prelude::*;
use crate::records::{hash_records, path_views, rec_views, selected_records};

verus! {

#[verifier::external_type_specification]
#[verifier::external_body]
pub struct ExDynamicImage(image::DynamicImage);

#[verifier::external_type_specification]
#[verifier::external_body]
pub struct ExProgressBar(indicatif::ProgressBar);

/// Relies on `image::open`: decodes the image file at `path`, with the
/// format determined from the file's content and extension; errors become
/// `None`.  The result depends on what is on disk, so nothing is promised
/// of it.
#[verifier::external_body]
fn open_image(path: &str) -> (img: Option<image::DynamicImage>) {
    image::open(path).ok()
}

/// Relies on `image::DynamicImage::as_bytes`: the image's raw samples as
/// bytes.  The image value is opaque here, so nothing is promised of the
/// bytes.
#[verifier::external_body]
fn image_bytes(img: &image::DynamicImage) -> (bytes: Vec<u8>) {
    img.as_bytes().to_vec()
}

/// Relies on `image::DynamicImage::width`.
#[verifier::external_body]
fn image_width(img: &image::DynamicImage) -> (w: u32) {
    img.width()
}

/// Relies on `image::DynamicImage::height`.
#[verifier::external_body]
fn image_height(img: &image::DynamicImage) -> (h: u32) {
    img.height()
}

/// Relies on `image::DynamicImage::color`: the number of channels of the
/// image's sample format.
#[verifier::external_body]
fn image_channels(img: &image::DynamicImage) -> (c: u8) {
    img.color().channel_count()
}

/// The dhash fingerprint of an image given as raw 8-bit samples with the
/// stated geometry.  `fast_dhash::Dhash::new` computes it from its
/// arguments alone, deterministically, so the value only gets a name here.
pub uninterp spec fn dhash_spec(bytes: Seq<u8>, width: u32, height: u32, channels: u8) -> u64;

/// Relies on `fast_dhash::Dhash::new`: the 64-bit dhash of the samples.
/// Its source panics when `width * height * channels` differs from the
/// number of bytes, and reads out of bounds when `channels` is zero, so
/// both are ruled out here.
#[verifier::external_body]
fn dhash_of(bytes: &[u8], width: u32, height: u32, channels: u8) -> (r: u64)
    requires
        channels >= 1,
        bytes@.len() == width as int * height as int * channels as int,
    ensures
        r == dhash_spec(bytes@, width, height, channels),
{
    fast_dhash::Dhash::new(bytes, width, height, channels).hash
}

/// The fingerprint of raw image data: defined exactly when the buffer
/// holds one byte per channel of every pixel of the stated geometry, with
/// at least one channel.
pub open spec fn spec_fingerprint_parts(
    bytes: Seq<u8>,
    width: u32,
    height: u32,
    channels: u8,
) -> Option<u64> {
    if channels >= 1 && bytes.len() == width as int * height as int * channels as int {
        Some(dhash_spec(bytes, width, height, channels))
    } else {
        None
    }
}

/// Computes the fingerprint of raw image data, refusing geometry that does
/// not match the buffer: such data would make the hash read out of bounds,
/// so it is treated as undecodable instead.
pub fn fingerprint_parts(bytes: &Vec<u8>, width: u32, height: u32, channels: u8) -> (r: Option<
    u64,
>)
    ensures
        r == spec_fingerprint_parts(bytes@, width, height, channels),
{
    if channels == 0 {
        return None;
    }
    proof {
        assert((width as int) * (height as int) < 0x1_0000_0000_0000_0000) by (nonlinear_arith)
            requires
                width < 0x1_0000_0000,
                height < 0x1_0000_0000,
        ;
        assert((width as int) * (height as int) * (channels as int) < 0x100_0000_0000_0000_0000)
            by (nonlinear_arith)
            requires
                0 <= (width as int) * (height as int) < 0x1_0000_0000_0000_0000,
                channels < 0x100,
        ;
    }
    let expected = (width as u128) * (height as u128) * (channels as u128);
    if (bytes.len() as u128) == expected {
        Some(dhash_of(bytes.as_slice(), width, height, channels))
    } else {
        None
    }
}

/// One fingerprint attempt: decode the file and hash its samples.  The
/// outcome depends on what is on disk.
fn hash_path(path: &str) -> Option<u64> {
    match open_image(path) {
        None => None,
        Some(img) => {
            let bytes = image_bytes(&img);
            let w = image_width(&img);
            let h = image_height(&img);
            let c = image_channels(&img);
            fingerprint_parts(&bytes, w, h, c)
        },
    }
}

/// Relies on `indicatif::ProgressBar::inc`: advances the bar by one unit.
/// Display only; nothing is promised.
#[verifier::external_body]
fn progress_inc(bar: &indicatif::ProgressBar) {
    bar.inc(1);
}

/// Relies on `indicatif::ProgressBar::finish_with_message`: finishes the
/// bar and shows the message.  Display only; nothing is promised.
#[verifier::external_body]
fn progress_finish(bar: &indicatif::ProgressBar, msg: &str) {
    bar.finish_with_message(msg.to_string());
}

/// Hashes every path of one chunk, skipping files whose decode or hash
/// attempt fails and advancing the progress bar once per path, success or
/// skip.  Whatever each attempt returned, the records are exactly the
/// successful attempts in input order.
pub fn generate_hashes(images: Vec<String>, bar: indicatif::ProgressBar) -> (r: Vec<(String, u64)>)
    ensures
        exists|fps: Seq<Option<u64>>|
            fps.len() == images@.len() && rec_views(r@) == #[trigger] selected_records(
                path_views(images@),
                fps,
            ),
{
    let n = images.len();
    let mut fps: Vec<Option<u64>> = Vec::new();
    let mut i: usize = 0;
    while i < n
        invariant
            i <= n,
            n == images@.len(),
            fps@.len() == i,
        decreases n - i,
    {
        let fp = hash_path(images[i].as_str());
        fps.push(fp);
        progress_inc(&bar);
        i += 1;
    }
    progress_finish(&bar, "Done!");
    let records = hash_records(&images, &fps).0;
    proof {
        assert(rec_views(records@) == selected_records(path_views(images@), fps@));
    }
    records
}

} // verus!
