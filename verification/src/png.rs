//! Reading the frames that `ffmpeg` wrote as PNG files back into RGB
//! samples.
use vstd::prelude::*;
use image::ImageFormat;

verus! {

/// The RGB samples (8 bits each, row by row) of the PNG image `png`, or
/// `None` where `png` is no PNG image that the `image` crate decodes.
pub uninterp spec fn png_rgb_samples(png: Seq<u8>) -> Option<Seq<u8>>;

/// Calls `image::load_from_memory_with_format(png, ImageFormat::Png)`, then
/// `to_rgb8` and `into_raw` on the image. The decoding depends on the bytes
/// alone; which inputs decode, and to what, is not stated here.
#[verifier::external_body]
fn decode_png(png: &[u8]) -> (samples: Option<Vec<u8>>)
    ensures
        match samples {
            Some(s) => png_rgb_samples(png@) == Some(s@),
            None => png_rgb_samples(png@) is None,
        },
{
    match image::load_from_memory_with_format(png, ImageFormat::Png) {
        Ok(img) => Some(img.to_rgb8().into_raw()),
        Err(_) => None,
    }
}

/// The samples of the PNG images `pngs`, one after the other, or `None`
/// where one of them does not decode.
pub open spec fn decoded_pngs(pngs: Seq<Seq<u8>>) -> Option<Seq<u8>>
    decreases pngs.len(),
{
    if pngs.len() == 0 {
        Some(Seq::empty())
    } else {
        match (decoded_pngs(pngs.drop_last()), png_rgb_samples(pngs.last())) {
            (Some(front), Some(back)) => Some(front + back),
            _ => None,
        }
    }
}

/// The contents of a list of files.
pub open spec fn file_contents(files: Seq<Vec<u8>>) -> Seq<Seq<u8>> {
    files.map_values(|f: Vec<u8>| f@)
}

/// Decodes the PNG files `pngs`, in order, and gathers their RGB samples;
/// `None` as soon as one of them does not decode.
pub fn decode_png_frames(pngs: &Vec<Vec<u8>>) -> (samples: Option<Vec<u8>>)
    ensures
        match samples {
            Some(s) => decoded_pngs(file_contents(pngs@)) == Some(s@),
            None => decoded_pngs(file_contents(pngs@)) is None,
        },
{
    let mut samples: Vec<u8> = Vec::new();
    let mut i: usize = 0;
    while i < pngs.len()
        invariant
            i <= pngs@.len(),
            decoded_pngs(file_contents(pngs@).take(i as int)) == Some(samples@),
        decreases pngs@.len() - i,
    {
        let ghost prefix = file_contents(pngs@).take(i as int);
        let ghost next = file_contents(pngs@).take(i + 1);
        assert(next.drop_last() =~= prefix);
        assert(next.last() == pngs@[i as int]@);
        match decode_png(pngs[i].as_slice()) {
            Some(mut frame) => {
                samples.append(&mut frame);
            },
            None => {
                proof {
                    lemma_decode_failure_sticks(file_contents(pngs@), i as int + 1);
                }
                return None;
            },
        }
        i = i + 1;
    }
    assert(file_contents(pngs@).take(i as int) =~= file_contents(pngs@));
    Some(samples)
}

/// The RGB samples of each PNG image of a list, assuming all decode.
pub open spec fn each_png_samples(pngs: Seq<Seq<u8>>) -> Seq<Seq<u8>> {
    pngs.map_values(|p: Seq<u8>| png_rgb_samples(p).unwrap())
}

/// Gathering decodes every image of the list: when all of them decode, the
/// result is the concatenation of their samples in list order (so its
/// length is the sum of theirs); when one of them does not, there is none.
pub proof fn lemma_decoded_pngs_concatenate(pngs: Seq<Seq<u8>>)
    ensures
        (forall|i: int| 0 <= i < pngs.len() ==> #[trigger] png_rgb_samples(pngs[i]) is Some)
            ==> decoded_pngs(pngs) == Some(each_png_samples(pngs).flatten()),
        (exists|i: int| 0 <= i < pngs.len() && #[trigger] png_rgb_samples(pngs[i]) is None)
            ==> decoded_pngs(pngs) is None,
    decreases pngs.len(),
{
    each_png_samples(pngs).lemma_flatten_and_flatten_alt_are_equivalent();
    if pngs.len() > 0 {
        let front = pngs.drop_last();
        lemma_decoded_pngs_concatenate(front);
        assert(each_png_samples(front) =~= each_png_samples(pngs).drop_last());
        if forall|i: int| 0 <= i < pngs.len() ==> #[trigger] png_rgb_samples(pngs[i]) is Some {
            assert forall|i: int| 0 <= i < front.len() implies #[trigger] png_rgb_samples(front[i]) is Some by {
                assert(front[i] == pngs[i]);
            }
            assert(png_rgb_samples(pngs[pngs.len() - 1]) is Some);
            each_png_samples(front).lemma_flatten_and_flatten_alt_are_equivalent();
        }
        if exists|i: int| 0 <= i < pngs.len() && #[trigger] png_rgb_samples(pngs[i]) is None {
            let i = choose|i: int| 0 <= i < pngs.len() && #[trigger] png_rgb_samples(pngs[i]) is None;
            if i < pngs.len() - 1 {
                assert(front[i] == pngs[i]);
                assert(png_rgb_samples(front[i]) is None);
            }
        }
    } else {
        assert(each_png_samples(pngs).flatten() =~= Seq::<u8>::empty());
    }
}

/// Once a prefix of the list fails to decode, so does the whole list.
proof fn lemma_decode_failure_sticks(pngs: Seq<Seq<u8>>, n: int)
    requires
        0 <= n <= pngs.len(),
        decoded_pngs(pngs.take(n)) is None,
    ensures
        decoded_pngs(pngs) is None,
    decreases pngs.len() - n,
{
    if n == pngs.len() {
        assert(pngs.take(n) =~= pngs);
    } else {
        assert(pngs.take(n + 1).drop_last() =~= pngs.take(n));
        lemma_decode_failure_sticks(pngs, n + 1);
    }
}

} // verus!
