//! The on-flash image layout: a fixed header table, one record per album,
//! followed by the albums' pixel data in album order.

use vstd::prelude::*;
use vstd::seq_lib::lemma_flatten_concat;
use crate::commands::{max_frames, spec_max_frames};
use crate::consts::{
    DISPLAY_HEIGHT, DISPLAY_WIDTH, FLASH_HEADER_AREA, FRAME_HEADER_SIZE, FRAME_PIXEL_SIZE,
    MAX_FRAME_HEADERS,
};
use crate::crc::{crc32, crc32_of};
use crate::error::HubError;
use crate::frame_header::{
    header_bytes, lemma_header_round_trip, lemma_zero_slot_is_empty, read_header, FrameHeader,
};
use crate::bytes::{copy_into, push_bytes};

verus! {

/// Equal-size RGB565 frames at the display resolution and the delay between
/// them; a single frame is a still image.
pub struct Album {
    pub frames: Vec<Vec<u8>>,
    pub delay_ms: u16,
}

/// The frames of an album, as byte sequences.
pub open spec fn album_frames(a: Album) -> Seq<Seq<u8>> {
    Seq::new(a.frames@.len(), |j: int| a.frames@[j]@)
}

/// An album's frames, concatenated.
pub open spec fn album_data(a: Album) -> Seq<u8> {
    album_frames(a).flatten()
}

/// Number of frames of all albums together.
pub open spec fn frames_total(s: Seq<Album>) -> int
    decreases s.len(),
{
    if s.len() == 0 {
        0
    } else {
        frames_total(s.drop_last()) + s.last().frames@.len()
    }
}

/// The pixel data of all albums, in album order.
pub open spec fn all_data(s: Seq<Album>) -> Seq<u8>
    decreases s.len(),
{
    if s.len() == 0 {
        Seq::empty()
    } else {
        all_data(s.drop_last()) + album_data(s.last())
    }
}

/// Where album `i`'s data starts in the flash image.
pub open spec fn data_offset(s: Seq<Album>, i: int) -> int {
    8192 + all_data(s.subrange(0, i)).len() as int
}

/// Whether every frame has the size of one display frame.
pub open spec fn frames_ok(s: Seq<Album>) -> bool {
    forall|i: int, j: int|
        0 <= i < s.len() && 0 <= j < s[i].frames@.len() ==> (#[trigger] s[i].frames@[j])@.len()
            == 108800
}

/// The header record of album `i`.
pub open spec fn album_header(s: Seq<Album>, i: int) -> FrameHeader {
    FrameHeader {
        width: 320,
        height: 170,
        frame_count: s[i].frames@.len() as u16,
        delay_ms: s[i].delay_ms,
        data_offset: data_offset(s, i) as u32,
        data_length: album_data(s[i]).len() as u32,
        data_crc32: crc32_of(album_data(s[i])),
    }
}

/// The header records of the first `n` albums, back to back.
pub open spec fn header_records(s: Seq<Album>, n: int) -> Seq<u8>
    decreases n,
{
    if n <= 0 {
        Seq::empty()
    } else {
        header_records(s, n - 1) + header_bytes(album_header(s, n - 1))
    }
}

/// The flash image of `s`: the header records, zeros up to the end of the
/// header table, then the pixel data.
pub open spec fn flash_image(s: Seq<Album>) -> Seq<u8> {
    header_records(s, s.len() as int) + Seq::new((8192 - 28 * s.len()) as nat, |k: int| 0u8)
        + all_data(s)
}

/// Why a list of albums cannot be laid out on a flash of `flash_size` bytes,
/// checked in this order: too many albums, too many frames, a frame of the
/// wrong size.
pub open spec fn layout_error(s: Seq<Album>, flash_size: u32) -> Option<HubError> {
    if s.len() > 292 {
        Some(HubError::TooManyAlbums)
    } else if frames_total(s) > spec_max_frames(flash_size) {
        Some(HubError::CapacityExceeded)
    } else if !frames_ok(s) {
        Some(HubError::FrameSizeMismatch)
    } else {
        None
    }
}

proof fn lemma_header_records_len(s: Seq<Album>, n: int)
    requires
        n >= 0,
    ensures
        header_records(s, n).len() == 28 * n,
    decreases n,
{
    if n > 0 {
        lemma_header_records_len(s, n - 1);
    }
}

proof fn lemma_flatten_len(f: Seq<Seq<u8>>, k: int)
    requires
        0 <= k <= f.len(),
        forall|j: int| 0 <= j < f.len() ==> (#[trigger] f[j]).len() == 108800,
    ensures
        f.subrange(0, k).flatten().len() == 108800 * k,
    decreases k,
{
    if k == 0 {
        assert(f.subrange(0, 0) =~= Seq::<Seq<u8>>::empty());
    } else {
        lemma_flatten_len(f, k - 1);
        assert(f.subrange(0, k) =~= f.subrange(0, k - 1).push(f[k - 1]));
        f.subrange(0, k - 1).lemma_flatten_push(f[k - 1]);
    }
}

proof fn lemma_album_data_len(a: Album)
    requires
        forall|j: int| 0 <= j < a.frames@.len() ==> (#[trigger] a.frames@[j])@.len() == 108800,
    ensures
        album_data(a).len() == 108800 * a.frames@.len(),
{
    let f = album_frames(a);
    lemma_flatten_len(f, f.len() as int);
    assert(f.subrange(0, f.len() as int) =~= f);
}

proof fn lemma_data_len(s: Seq<Album>)
    requires
        frames_ok(s),
    ensures
        all_data(s).len() == 108800 * frames_total(s),
        frames_total(s) >= 0,
    decreases s.len(),
{
    if s.len() > 0 {
        assert forall|i: int, j: int|
            0 <= i < s.drop_last().len() && 0 <= j < s.drop_last()[i].frames@.len() implies (
            #[trigger] s.drop_last()[i].frames@[j])@.len() == 108800 by {
            assert(s.drop_last()[i] == s[i]);
        }
        lemma_data_len(s.drop_last());
        let a = s.last();
        assert forall|j: int| 0 <= j < a.frames@.len() implies (
        #[trigger] a.frames@[j])@.len() == 108800 by {
            assert(s[s.len() - 1].frames@[j] == a.frames@[j]);
        }
        lemma_album_data_len(a);
        assert(108800 * frames_total(s.drop_last()) + 108800 * a.frames@.len() == 108800 * (
        frames_total(s.drop_last()) + a.frames@.len())) by (nonlinear_arith);
    }
}

proof fn lemma_prefix_ok(s: Seq<Album>, i: int)
    requires
        frames_ok(s),
        0 <= i <= s.len(),
    ensures
        frames_ok(s.subrange(0, i)),
        frames_total(s.subrange(0, i)) <= frames_total(s),
    decreases s.len() - i,
{
    if i < s.len() {
        lemma_prefix_ok(s, i + 1);
        let p = s.subrange(0, i + 1);
        assert(p.drop_last() =~= s.subrange(0, i));
    } else {
        assert(s.subrange(0, i) =~= s);
    }
}

proof fn lemma_frames_total_nonneg(s: Seq<Album>)
    ensures
        frames_total(s) >= 0,
    decreases s.len(),
{
    if s.len() > 0 {
        lemma_frames_total_nonneg(s.drop_last());
    }
}

/// An album's frames, concatenated.
fn album_bytes(album: &Album) -> (r: Vec<u8>)
    ensures
        r@ == album_data(*album),
{
    let mut all: Vec<u8> = Vec::new();
    let mut j: usize = 0;
    assert(album_frames(*album).subrange(0, 0) =~= Seq::<Seq<u8>>::empty());
    while j < album.frames.len()
        invariant
            j <= album.frames@.len(),
            all@ == album_frames(*album).subrange(0, j as int).flatten(),
        decreases album.frames@.len() - j,
    {
        push_bytes(&mut all, album.frames[j].as_slice());
        proof {
            let f = album_frames(*album);
            assert(f.subrange(0, j + 1) =~= f.subrange(0, j as int).push(f[j as int]));
            f.subrange(0, j as int).lemma_flatten_push(f[j as int]);
        }
        j = j + 1;
    }
    assert(album_frames(*album).subrange(0, album.frames@.len() as int) =~= album_frames(
        *album,
    ));
    all
}

/// Lays out `albums` for a flash of `flash_size` bytes: one header record per
/// album in the table, each album's frames concatenated in the data region.
pub fn build_flash_buffer(albums: &[Album], flash_size: u32) -> (r: Result<Vec<u8>, HubError>)
    ensures
        layout_error(albums@, flash_size) matches Some(e) ==> r == Err::<Vec<u8>, HubError>(e),
        layout_error(albums@, flash_size) is None ==> r is Ok && r->Ok_0@ == flash_image(
            albums@,
        ),
{
    let max = max_frames(flash_size);
    if albums.len() > MAX_FRAME_HEADERS {
        return Err(HubError::TooManyAlbums);
    }
    let mut total_frames: usize = 0;
    let mut i: usize = 0;
    while i < albums.len()
        invariant
            i <= albums@.len(),
            albums@.len() <= 292,
            total_frames == frames_total(albums@.subrange(0, i as int)),
            total_frames <= max,
            max == spec_max_frames(flash_size),
        decreases albums@.len() - i,
    {
        let n = albums[i].frames.len();
        assert(albums@.subrange(0, i + 1).drop_last() =~= albums@.subrange(0, i as int));
        assert(frames_total(albums@.subrange(0, i + 1)) == total_frames + n);
        if n > max - total_frames {
            proof {
                lemma_frames_total_nonneg(albums@.subrange(i + 1, albums@.len() as int));
                lemma_total_split(albums@, i + 1);
            }
            return Err(HubError::CapacityExceeded);
        }
        total_frames = total_frames + n;
        i = i + 1;
    }
    assert(albums@.subrange(0, albums@.len() as int) =~= albums@);
    let mut i: usize = 0;
    while i < albums.len()
        invariant
            i <= albums@.len(),
            albums@.len() <= 292,
            frames_total(albums@) <= spec_max_frames(flash_size),
            forall|a: int, j: int|
                0 <= a < i && 0 <= j < albums@[a].frames@.len() ==> (
                #[trigger] albums@[a].frames@[j])@.len() == 108800,
        decreases albums@.len() - i,
    {
        let frames = &albums[i].frames;
        let mut j: usize = 0;
        while j < frames.len()
            invariant
                i < albums@.len(),
                albums@.len() <= 292,
                frames_total(albums@) <= spec_max_frames(flash_size),
                frames == albums@[i as int].frames,
                j <= frames@.len(),
                forall|a: int, b: int|
                    0 <= a < i && 0 <= b < albums@[a].frames@.len() ==> (
                    #[trigger] albums@[a].frames@[b])@.len() == 108800,
                forall|b: int| 0 <= b < j ==> (#[trigger] frames@[b])@.len() == 108800,
            decreases frames@.len() - j,
        {
            if frames[j].len() != FRAME_PIXEL_SIZE {
                assert((albums@[i as int].frames@[j as int])@.len() != 108800);
                return Err(HubError::FrameSizeMismatch);
            }
            j = j + 1;
        }
        i = i + 1;
    }
    assert(frames_ok(albums@));
    proof {
        lemma_data_len(albums@);
        lemma_capacity_bytes(flash_size, frames_total(albums@));
        assert(8192 + all_data(albums@).len() <= u32::MAX);
    }
    let mut buffer: Vec<u8> = Vec::new();
    let mut k: usize = 0;
    while k < FLASH_HEADER_AREA
        invariant
            k <= 8192,
            buffer@.len() == k,
            forall|m: int| 0 <= m < k ==> buffer@[m] == 0u8,
        decreases 8192 - k,
    {
        buffer.push(0);
        k = k + 1;
    }
    assert(albums@.subrange(0, 0) =~= Seq::<Album>::empty());
    assert(buffer@.subrange(8192, 8192) =~= all_data(albums@.subrange(0, 0)));
    assert(buffer@.subrange(0, 0) =~= header_records(albums@, 0));
    let mut i: usize = 0;
    while i < albums.len()
        invariant
            i <= albums@.len(),
            albums@.len() <= 292,
            frames_ok(albums@),
            8192 + all_data(albums@).len() <= u32::MAX,
            buffer@.len() == 8192 + all_data(albums@.subrange(0, i as int)).len(),
            buffer@.subrange(0, 28 * i) == header_records(albums@, i as int),
            forall|m: int| 28 * i <= m < 8192 ==> buffer@[m] == 0u8,
            buffer@.subrange(8192, buffer@.len() as int) == all_data(
                albums@.subrange(0, i as int),
            ),
        decreases albums@.len() - i,
    {
        let album = &albums[i];
        let all = album_bytes(album);
        let ghost next = albums@.subrange(0, i + 1);
        assert(next.drop_last() =~= albums@.subrange(0, i as int));
        assert(all_data(next) == all_data(albums@.subrange(0, i as int)) + all@);
        proof {
            lemma_prefix_ok(albums@, i + 1);
            lemma_data_len(next);
            assert(108800 * frames_total(next) <= 108800 * frames_total(albums@))
                by (nonlinear_arith)
                requires
                    frames_total(next) <= frames_total(albums@),
            ;
            lemma_header_records_len(albums@, i as int);
            lemma_header_records_len(albums@, i + 1);
            lemma_frames_total_nonneg(albums@.subrange(0, i as int));
            assert(frames_total(next) == frames_total(albums@.subrange(0, i as int))
                + album.frames@.len());
            assert(spec_max_frames(flash_size) <= 39475);
        }
        let data_crc = crc32(all.as_slice());
        let offset = buffer.len();
        let header = FrameHeader {
            width: DISPLAY_WIDTH as u16,
            height: DISPLAY_HEIGHT as u16,
            frame_count: album.frames.len() as u16,
            delay_ms: album.delay_ms,
            data_offset: offset as u32,
            data_length: all.len() as u32,
            data_crc32: data_crc,
        };
        assert(header == album_header(albums@, i as int));
        let mut slot = [0u8; 28];
        header.write_to(&mut slot);
        let ghost before = buffer@;
        copy_into(&mut buffer, i * FRAME_HEADER_SIZE, &slot);
        assert(buffer@.subrange(0, 28 * (i + 1)) =~= before.subrange(0, 28 * i) + header_bytes(
            header,
        ));
        assert(buffer@.subrange(8192, buffer@.len() as int) =~= before.subrange(
            8192,
            before.len() as int,
        ));
        let ghost mid = buffer@;
        push_bytes(&mut buffer, all.as_slice());
        assert(buffer@.subrange(0, 28 * (i + 1)) =~= mid.subrange(0, 28 * (i + 1)));
        assert(buffer@.subrange(8192, buffer@.len() as int) =~= mid.subrange(
            8192,
            mid.len() as int,
        ) + all@);
        i = i + 1;
    }
    assert(albums@.subrange(0, albums@.len() as int) =~= albums@);
    proof {
        lemma_header_records_len(albums@, albums@.len() as int);
    }
    let ghost n = albums@.len() as int;
    assert(buffer@ =~= buffer@.subrange(0, 28 * n) + buffer@.subrange(28 * n, 8192)
        + buffer@.subrange(8192, buffer@.len() as int));
    assert(buffer@.subrange(28 * n, 8192) =~= Seq::new((8192 - 28 * n) as nat, |k: int| 0u8));
    Ok(buffer)
}

proof fn lemma_capacity_bytes(flash_size: u32, total: int)
    requires
        0 <= total <= spec_max_frames(flash_size),
    ensures
        8192 + 108800 * total <= u32::MAX,
{
    if flash_size >= 8192 {
        let d = flash_size - 8192;
        let q = d / 108800;
        assert(spec_max_frames(flash_size) == q);
        assert(108800 * total <= 108800 * q) by (nonlinear_arith)
            requires
                total <= q,
        ;
        assert(108800 * q <= d) by (nonlinear_arith)
            requires
                d >= 0,
                q == d / 108800,
        ;
    }
}

proof fn lemma_total_split(s: Seq<Album>, i: int)
    requires
        0 <= i <= s.len(),
    ensures
        frames_total(s) == frames_total(s.subrange(0, i)) + frames_total(
            s.subrange(i, s.len() as int),
        ),
    decreases s.len(),
{
    if i == s.len() {
        assert(s.subrange(0, i) =~= s);
        assert(s.subrange(i, s.len() as int) =~= Seq::<Album>::empty());
    } else {
        lemma_total_split(s.drop_last(), i);
        assert(s.drop_last().subrange(0, i) =~= s.subrange(0, i));
        let t = s.subrange(i, s.len() as int);
        assert(t.drop_last() =~= s.drop_last().subrange(i, s.drop_last().len() as int));
        assert(t.last() == s.last());
    }
}

/// One album read back from a flash image: its header and its frames.
pub struct StoredAlbum {
    pub header: FrameHeader,
    pub frames: Vec<Vec<u8>>,
}

/// Bytes of one frame of the size a header gives.
pub open spec fn frame_size(h: FrameHeader) -> int {
    h.width as int * h.height as int * 2
}

/// How many whole frames of an album's pixels can be read: the header's
/// frame count, or fewer where the pixels run out.
pub open spec fn whole_frames(len: int, h: FrameHeader) -> int {
    if frame_size(h) == 0 || h.frame_count as int * frame_size(h) <= len {
        h.frame_count as int
    } else {
        len / frame_size(h)
    }
}

/// An album's pixels cut into frames: one still image where the header
/// counts one frame, otherwise as many whole frames of the header's size as
/// are there.
pub open spec fn split_frames(pixels: Seq<u8>, h: FrameHeader) -> Seq<Seq<u8>> {
    if h.frame_count == 1 {
        seq![pixels]
    } else {
        Seq::new(
            whole_frames(pixels.len() as int, h) as nat,
            |f: int| pixels.subrange(f * frame_size(h), (f + 1) * frame_size(h)),
        )
    }
}

/// The bytes from header slot `i` to the end of the image.
pub open spec fn slot_bytes(flash: Seq<u8>, i: int) -> Seq<u8> {
    if 28 * i <= flash.len() {
        flash.subrange(28 * i, flash.len() as int)
    } else {
        Seq::empty()
    }
}

/// The albums found from header slot `i` on: slots are read in order until
/// one holds no entry, the table ends, or an album's data runs past the end
/// of the image; a damaged header is an error.
pub open spec fn scan_slots(flash: Seq<u8>, i: int) -> Result<
    Seq<(FrameHeader, Seq<Seq<u8>>)>,
    HubError,
>
    decreases 292 - i,
{
    if i >= 292 || i < 0 {
        Ok(Seq::empty())
    } else {
        match read_header(slot_bytes(flash, i)) {
            Err(e) => Err(e),
            Ok(None) => Ok(Seq::empty()),
            Ok(Some(h)) => {
                let end = h.data_offset as int + h.data_length as int;
                if end > flash.len() {
                    Ok(Seq::empty())
                } else {
                    match scan_slots(flash, i + 1) {
                        Ok(rest) => Ok(
                            seq![(h, split_frames(flash.subrange(h.data_offset as int, end), h))]
                                + rest,
                        ),
                        Err(e) => Err(e),
                    }
                }
            },
        }
    }
}

/// The frames of a list of byte vectors, as byte sequences.
pub open spec fn frames_view(v: Seq<Vec<u8>>) -> Seq<Seq<u8>> {
    Seq::new(v.len(), |j: int| v[j]@)
}

/// A read-back album, as a value.
pub open spec fn stored_view(a: StoredAlbum) -> (FrameHeader, Seq<Seq<u8>>) {
    (a.header, frames_view(a.frames@))
}

/// Read-back albums, as values.
pub open spec fn stored_views(v: Seq<StoredAlbum>) -> Seq<(FrameHeader, Seq<Seq<u8>>)> {
    Seq::new(v.len(), |j: int| stored_view(v[j]))
}

/// Copies `src` into a new vector.
fn to_vec(src: &[u8]) -> (r: Vec<u8>)
    ensures
        r@ == src@,
{
    let mut v: Vec<u8> = Vec::new();
    push_bytes(&mut v, src);
    v
}

/// Cuts an album's pixels into frames as its header describes.
fn split_album(pixels: &[u8], h: &FrameHeader) -> (r: Vec<Vec<u8>>)
    ensures
        frames_view(r@) == split_frames(pixels@, *h),
{
    let mut frames: Vec<Vec<u8>> = Vec::new();
    if h.frame_count == 1 {
        frames.push(to_vec(pixels));
        assert(frames_view(frames@) =~= split_frames(pixels@, *h));
        return frames;
    }
    let w = h.width as u64;
    let hh = h.height as u64;
    assert(w * hh <= 4294836225) by (nonlinear_arith)
        requires
            w <= 65535,
            hh <= 65535,
    ;
    let fs: u64 = w * hh * 2;
    assert(fs == frame_size(*h));
    assert((h.frame_count as u64) * fs <= 65535 * 8589672450) by (nonlinear_arith)
        requires
            h.frame_count <= 65535,
            fs <= 8589672450,
    ;
    let len = pixels.len() as u64;
    let count: u64 = if fs == 0 || (h.frame_count as u64) * fs <= len {
        h.frame_count as u64
    } else {
        len / fs
    };
    assert(count == whole_frames(pixels@.len() as int, *h));
    assert(count * fs <= len) by (nonlinear_arith)
        requires
            count == (if fs == 0 || (h.frame_count as u64) * fs <= len {
                h.frame_count as u64
            } else {
                len / fs
            }),
    ;
    let mut f: u64 = 0;
    let mut pos: usize = 0;
    while f < count
        invariant
            fs == frame_size(*h),
            h.frame_count != 1,
            count == whole_frames(pixels@.len() as int, *h),
            len == pixels@.len(),
            count * fs <= len,
            f <= count,
            pos == f * fs,
            frames@.len() == f,
            forall|k: int|
                0 <= k < f ==> (#[trigger] frames@[k])@ == pixels@.subrange(
                    k * fs,
                    (k + 1) * fs,
                ),
        decreases count - f,
    {
        assert(0 <= f * fs && f * fs + fs == (f + 1) * fs <= count * fs) by (nonlinear_arith)
            requires
                f < count,
        ;
        let plen = pixels.len();
        assert(fs <= plen);
        let step = fs as usize;
        assert(step == fs);
        let end = pos + step;
        let ghost before = frames@;
        frames.push(to_vec(&pixels[pos..end]));
        assert forall|k: int| 0 <= k < f + 1 implies (#[trigger] frames@[k])@ == pixels@.subrange(
            k * fs,
            (k + 1) * fs,
        ) by {
            if k < f {
                assert(frames@[k] == before[k]);
            }
        }
        f = f + 1;
        pos = end;
    }
    assert(frames_view(frames@) =~= split_frames(pixels@, *h));
    frames
}

/// Reads the albums back from a flash image.
pub fn parse_flash_buffer(flash: &[u8]) -> (r: Result<Vec<StoredAlbum>, HubError>)
    ensures
        r matches Ok(v) ==> scan_slots(flash@, 0) == Ok::<
            Seq<(FrameHeader, Seq<Seq<u8>>)>,
            HubError,
        >(stored_views(v@)),
        r matches Err(e) ==> scan_slots(flash@, 0) == Err::<
            Seq<(FrameHeader, Seq<Seq<u8>>)>,
            HubError,
        >(e),
{
    let mut albums: Vec<StoredAlbum> = Vec::new();
    let mut i: usize = 0;
    while i < MAX_FRAME_HEADERS
        invariant
            i <= 292,
            scan_slots(flash@, 0) == (match scan_slots(flash@, i as int) {
                Ok(rest) => Ok(stored_views(albums@) + rest),
                Err(e) => Err(e),
            }),
        decreases 292 - i,
    {
        let offset = i * FRAME_HEADER_SIZE;
        let slot: &[u8] = if offset <= flash.len() {
            &flash[offset..flash.len()]
        } else {
            &flash[0..0]
        };
        assert(slot@ =~= slot_bytes(flash@, i as int));
        let header = match FrameHeader::read_from(slot) {
            Err(e) => {
                return Err(e);
            },
            Ok(None) => {
                assert(stored_views(albums@) + Seq::<(FrameHeader, Seq<Seq<u8>>)>::empty()
                    =~= stored_views(albums@));
                return Ok(albums);
            },
            Ok(Some(h)) => h,
        };
        let end = header.data_offset as u64 + header.data_length as u64;
        if end > flash.len() as u64 {
            assert(stored_views(albums@) + Seq::<(FrameHeader, Seq<Seq<u8>>)>::empty()
                =~= stored_views(albums@));
            return Ok(albums);
        }
        let pixels = &flash[header.data_offset as usize..end as usize];
        let frames = split_album(pixels, &header);
        let ghost before = albums@;
        albums.push(StoredAlbum { header, frames });
        assert(stored_views(albums@) =~= stored_views(before).push(stored_view(albums@.last())));
        proof {
            match scan_slots(flash@, i + 1) {
                Ok(rest) => {
                    assert(stored_views(albums@) + rest =~= stored_views(before) + (seq![
                        stored_view(albums@.last()),
                    ] + rest));
                },
                Err(e) => {},
            }
        }
        i = i + 1;
    }
    assert(stored_views(albums@) + Seq::<(FrameHeader, Seq<Seq<u8>>)>::empty() =~= stored_views(
        albums@,
    ));
    Ok(albums)
}

proof fn lemma_header_slot(s: Seq<Album>, m: int, i: int)
    requires
        0 <= i < m,
    ensures
        header_records(s, m).len() == 28 * m,
        header_records(s, m).subrange(28 * i, 28 * i + 28) == header_bytes(album_header(s, i)),
    decreases m,
{
    lemma_header_records_len(s, m);
    lemma_header_records_len(s, m - 1);
    let prev = header_records(s, m - 1);
    if i == m - 1 {
        assert(header_records(s, m).subrange(28 * i, 28 * i + 28) =~= header_bytes(
            album_header(s, i),
        ));
    } else {
        lemma_header_slot(s, m - 1, i);
        assert(header_records(s, m).subrange(28 * i, 28 * i + 28) =~= prev.subrange(
            28 * i,
            28 * i + 28,
        ));
    }
}

proof fn lemma_all_data_prefix(s: Seq<Album>, k: int)
    requires
        0 <= k <= s.len(),
    ensures
        all_data(s.subrange(0, k)).len() <= all_data(s).len(),
        all_data(s).subrange(0, all_data(s.subrange(0, k)).len() as int) == all_data(
            s.subrange(0, k),
        ),
    decreases s.len(),
{
    if k == s.len() {
        assert(s.subrange(0, k) =~= s);
        assert(all_data(s).subrange(0, all_data(s).len() as int) =~= all_data(s));
    } else {
        lemma_all_data_prefix(s.drop_last(), k);
        assert(s.drop_last().subrange(0, k) =~= s.subrange(0, k));
        let p = all_data(s.subrange(0, k));
        assert(all_data(s).subrange(0, p.len() as int) =~= all_data(s.drop_last()).subrange(
            0,
            p.len() as int,
        ));
    }
}

proof fn lemma_flatten_slice(f: Seq<Seq<u8>>, k: int)
    requires
        0 <= k < f.len(),
        forall|j: int| 0 <= j < f.len() ==> (#[trigger] f[j]).len() == 108800,
    ensures
        f.flatten().subrange(108800 * k, 108800 * k + 108800) == f[k],
{
    let x = f.subrange(0, k);
    let y = f.subrange(k, f.len() as int);
    assert(f =~= x + y);
    lemma_flatten_concat(x, y);
    lemma_flatten_len(f, k);
    assert(y.flatten() == y.first() + y.drop_first().flatten());
    assert(y.first() == f[k]);
    assert(f.flatten().subrange(108800 * k, 108800 * k + 108800) =~= f[k]);
}

proof fn lemma_split_album(a: Album, h: FrameHeader)
    requires
        forall|j: int| 0 <= j < a.frames@.len() ==> (#[trigger] a.frames@[j])@.len() == 108800,
        h.frame_count as int == a.frames@.len(),
        h.width == 320,
        h.height == 170,
    ensures
        split_frames(album_data(a), h) == album_frames(a),
{
    let f = album_frames(a);
    lemma_album_data_len(a);
    assert(frame_size(h) == 108800);
    if h.frame_count == 1 {
        f.lemma_flatten_one_element();
        assert(split_frames(album_data(a), h) =~= f);
    } else {
        assert(h.frame_count as int * 108800 <= album_data(a).len());
        assert forall|k: int| 0 <= k < f.len() implies split_frames(album_data(a), h)[k] == f[k] by {
            lemma_flatten_slice(f, k);
            assert(108800 * k == k * frame_size(h));
            assert(108800 * k + 108800 == (k + 1) * frame_size(h));
        }
        assert(split_frames(album_data(a), h) =~= f);
    }
}

/// The entry that album `i` of `s` is read back as.
pub open spec fn album_entry(s: Seq<Album>, i: int) -> (FrameHeader, Seq<Seq<u8>>) {
    (album_header(s, i), album_frames(s[i]))
}

proof fn lemma_image_facts(s: Seq<Album>, flash_size: u32)
    requires
        layout_error(s, flash_size) is None,
    ensures
        header_records(s, s.len() as int).len() == 28 * s.len(),
        all_data(s).len() == 108800 * frames_total(s),
        8192 + all_data(s).len() <= u32::MAX,
        flash_image(s).len() == 8192 + all_data(s).len(),
        spec_max_frames(flash_size) <= 39475,
{
    lemma_header_records_len(s, s.len() as int);
    lemma_data_len(s);
    lemma_frames_total_nonneg(s);
    lemma_capacity_bytes(flash_size, frames_total(s));
}

/// In a laid-out image, the slot after the last album (when the table has
/// room for one) holds no entry, so the scan ends there.
pub proof fn lemma_scan_end(s: Seq<Album>, flash_size: u32)
    requires
        layout_error(s, flash_size) is None,
    ensures
        s.len() < 292 ==> read_header(slot_bytes(flash_image(s), s.len() as int)) == Ok::<
            Option<FrameHeader>,
            HubError,
        >(None),
        scan_slots(flash_image(s), s.len() as int) == Ok::<
            Seq<(FrameHeader, Seq<Seq<u8>>)>,
            HubError,
        >(Seq::empty()),
{
    let n = s.len() as int;
    let img = flash_image(s);
    lemma_image_facts(s, flash_size);
    if n < 292 {
        let slot = slot_bytes(img, n);
        assert forall|k: int| 0 <= k < 4 implies slot[k] == 0u8 by {
            assert(slot[k] == img[28 * n + k]);
        }
        lemma_zero_slot_is_empty(slot);
    }
}

/// In a laid-out image, the header slot of album `i` reads back as that
/// album's header record.
pub proof fn lemma_slot_header(s: Seq<Album>, flash_size: u32, i: int)
    requires
        layout_error(s, flash_size) is None,
        0 <= i < s.len(),
    ensures
        read_header(slot_bytes(flash_image(s), i)) == Ok::<Option<FrameHeader>, HubError>(
            Some(album_header(s, i)),
        ),
{
    let n = s.len() as int;
    let img = flash_image(s);
    lemma_image_facts(s, flash_size);
    let h = album_header(s, i);
    lemma_header_slot(s, n, i);
    let slot = slot_bytes(img, i);
    assert(slot =~= header_bytes(h) + img.subrange(28 * i + 28, img.len() as int));
    lemma_header_round_trip(h, img.subrange(28 * i + 28, img.len() as int));
}

/// In a laid-out image, the data range that album `i`'s header points at
/// lies within the image, and cut as the header describes it gives exactly
/// the album's frames.
pub proof fn lemma_slot_data(s: Seq<Album>, flash_size: u32, i: int)
    requires
        layout_error(s, flash_size) is None,
        0 <= i < s.len(),
    ensures
        ({
            let h = album_header(s, i);
            let end = h.data_offset as int + h.data_length as int;
            &&& end <= flash_image(s).len()
            &&& split_frames(flash_image(s).subrange(h.data_offset as int, end), h)
                == album_frames(s[i])
        }),
{
    let n = s.len() as int;
    let img = flash_image(s);
    lemma_image_facts(s, flash_size);
    let h = album_header(s, i);
    let next = s.subrange(0, i + 1);
    assert(next.drop_last() =~= s.subrange(0, i));
    lemma_all_data_prefix(s, i + 1);
    lemma_all_data_prefix(s, i);
    let start = all_data(s.subrange(0, i)).len() as int;
    let stop = all_data(next).len() as int;
    assert(all_data(next) == all_data(s.subrange(0, i)) + album_data(s[i]));
    assert(h.data_offset as int == 8192 + start);
    assert(h.data_length as int == stop - start);
    assert(img.subrange(8192 + start, 8192 + stop) =~= all_data(s).subrange(start, stop));
    assert(all_data(s).subrange(start, stop) =~= all_data(next).subrange(start, stop));
    assert(all_data(next).subrange(start, stop) =~= album_data(s[i]));
    assert forall|j: int| 0 <= j < s[i].frames@.len() implies (
    #[trigger] s[i].frames@[j])@.len() == 108800 by {}
    lemma_prefix_ok(s, i + 1);
    lemma_frames_total_nonneg(s.subrange(0, i));
    assert(frames_total(next) == frames_total(s.subrange(0, i)) + s[i].frames@.len());
    lemma_split_album(s[i], h);
}

proof fn lemma_scan_from(s: Seq<Album>, flash_size: u32, i: int)
    requires
        layout_error(s, flash_size) is None,
        0 <= i <= s.len(),
    ensures
        scan_slots(flash_image(s), i) == Ok::<Seq<(FrameHeader, Seq<Seq<u8>>)>, HubError>(
            Seq::new((s.len() - i) as nat, |k: int| album_entry(s, i + k)),
        ),
    decreases s.len() - i,
{
    let n = s.len() as int;
    if i == n {
        lemma_scan_end(s, flash_size);
        assert(Seq::new((s.len() - i) as nat, |k: int| album_entry(s, i + k)) =~= Seq::<
            (FrameHeader, Seq<Seq<u8>>),
        >::empty());
    } else {
        lemma_slot_header(s, flash_size, i);
        lemma_slot_data(s, flash_size, i);
        lemma_scan_from(s, flash_size, i + 1);
        assert(Seq::new((s.len() - i) as nat, |k: int| album_entry(s, i + k)) =~= seq![
            album_entry(s, i),
        ] + Seq::new((s.len() - (i + 1)) as nat, |k: int| album_entry(s, i + 1 + k)));
    }
}

/// A laid-out image reads back as the albums it was built from: in album
/// order, each album's header and exactly its frames, so its frame count and
/// pixel bytes.
pub proof fn lemma_layout_round_trip(albums: Seq<Album>, flash_size: u32)
    requires
        layout_error(albums, flash_size) is None,
    ensures
        scan_slots(flash_image(albums), 0) == Ok::<Seq<(FrameHeader, Seq<Seq<u8>>)>, HubError>(
            Seq::new(albums.len(), |i: int| album_entry(albums, i)),
        ),
        forall|i: int|
            0 <= i < albums.len() ==> (#[trigger] album_entry(albums, i)).1 == album_frames(
                albums[i],
            ),
{
    lemma_scan_from(albums, flash_size, 0);
    assert(Seq::new(albums.len(), |i: int| album_entry(albums, i)) =~= Seq::new(
        (albums.len() - 0) as nat,
        |k: int| album_entry(albums, 0 + k),
    ));
}

} // verus!
