//! The emoji bitmap manager: bitmaps registered from raw RGBA pixels, from
//! decoded image files and from downloaded images, kept in an LRU cache
//! (`lru::LruCache`) under a total byte budget, with a registry of how each
//! emoji was registered for reloading files that changed.
//!
//! Byte counters saturate at the range of `u64`.
use vstd::prelude::*;

use std::sync::Arc;

use image::{ImageError, ImageFormat};
use lru::LruCache;

use crate::config::EmojiCacheConfig;

use crate::math::clamp;
use crate::text::chars_of;

verus! {

#[verifier::external_type_specification]
#[verifier::external_body]
#[verifier::reject_recursive_types(K)]
#[verifier::reject_recursive_types(V)]
#[verifier::reject_recursive_types(S)]
pub struct ExLruCache<K, V, S>(LruCache<K, V, S>);

#[verifier::external_type_specification]
#[verifier::external_body]
pub struct ExLruHasher(lru::DefaultHasher);

#[verifier::external_type_specification]
#[verifier::external_body]
pub struct ExImageError(ImageError);

/// The largest image file registered, in bytes (32 MiB).
pub const MAX_IMAGE_FILE_BYTES: usize = 33554432;

/// How an emoji was registered.
#[derive(Debug, Clone, Copy, PartialEq, Eq, Structural)]
pub enum RegisterMethod {
    Rgba,
    File,
    Url,
}

/// An emoji bitmap: RGBA pixels, four bytes per pixel, row by row.
#[derive(Debug, Clone)]
pub struct EmojiBitmap {
    pub id: String,
    pub width: u32,
    pub height: u32,
    pub rgba_data: Vec<u8>,
    /// Size charged to the cache, in bytes.
    pub cached_size_bytes: u64,
    /// Modification time of the source file (nanoseconds since the Unix
    /// epoch), for bitmaps read from files.
    pub file_modified: Option<u128>,
    /// Source file, for bitmaps read from files.
    pub file_path: Option<String>,
    pub register_method: RegisterMethod,
}

/// The abstract value of a bitmap.
pub struct BitmapView {
    pub id: Seq<char>,
    pub width: u32,
    pub height: u32,
    pub rgba_data: Seq<u8>,
    pub cached_size_bytes: u64,
    pub file_modified: Option<u128>,
    pub file_path: Option<Seq<char>>,
    pub register_method: RegisterMethod,
}

/// The view of an optional string.
pub open spec fn opt_view(s: Option<String>) -> Option<Seq<char>> {
    match s {
        Some(t) => Some(t@),
        None => None,
    }
}

impl View for EmojiBitmap {
    type V = BitmapView;

    open spec fn view(&self) -> BitmapView {
        BitmapView {
            id: self.id@,
            width: self.width,
            height: self.height,
            rgba_data: self.rgba_data@,
            cached_size_bytes: self.cached_size_bytes,
            file_modified: self.file_modified,
            file_path: opt_view(self.file_path),
            register_method: self.register_method,
        }
    }
}

/// How an emoji was registered, kept for reloading.
#[derive(Debug, Clone)]
pub struct RegistryInfo {
    pub id: String,
    pub register_method: RegisterMethod,
    pub file_path: Option<String>,
    pub url: Option<String>,
    pub width: u32,
    pub height: u32,
}

/// The abstract value of a registry entry.
pub struct RegView {
    pub id: Seq<char>,
    pub register_method: RegisterMethod,
    pub file_path: Option<Seq<char>>,
    pub url: Option<Seq<char>>,
    pub width: u32,
    pub height: u32,
}

impl View for RegistryInfo {
    type V = RegView;

    open spec fn view(&self) -> RegView {
        RegView {
            id: self.id@,
            register_method: self.register_method,
            file_path: opt_view(self.file_path),
            url: opt_view(self.url),
            width: self.width,
            height: self.height,
        }
    }
}

/// The entries of an LRU cache of bitmaps, least recently used first.
pub uninterp spec fn lru_contents(c: LruCache<String, Arc<EmojiBitmap>>) -> Seq<
    (Seq<char>, BitmapView),
>;

/// The capacity an LRU cache of bitmaps was made with.
pub uninterp spec fn lru_capacity(c: LruCache<String, Arc<EmojiBitmap>>) -> nat;

/// What `image::load_from_memory` followed by `DynamicImage::to_rgba8` makes
/// of `bytes`: `None` where they do not decode as an image of a format
/// `image` recognises, else the width, the height and the RGBA pixels of the
/// decoded image.
pub uninterp spec fn rgba8_decoded(bytes: Seq<u8>) -> Option<(u32, u32, Seq<u8>)>;

/// What `ImageFormat::from_path`, `image::load_from_memory_with_format` and
/// `DynamicImage::to_rgba8` make of a file at `path` holding `bytes`: `None`
/// where the path's extension names no format `image` decodes or the bytes
/// do not decode in that format, else the width, the height and the RGBA
/// pixels of the decoded image.
pub uninterp spec fn file_decoded(path: Seq<char>, bytes: Seq<u8>) -> Option<(u32, u32, Seq<u8>)>;

/// Position of the entry for key `k`, or the number of entries.
pub open spec fn key_pos<V>(e: Seq<(Seq<char>, V)>, k: Seq<char>) -> int
    decreases e.len(),
{
    if e.len() == 0 {
        0
    } else if e[0].0 == k {
        0
    } else {
        1 + key_pos(e.drop_first(), k)
    }
}

/// Keys are distinct and the entries fit the capacity.
pub open spec fn lru_sound<V>(e: Seq<(Seq<char>, V)>, cap: nat) -> bool {
    &&& e.len() <= cap
    &&& forall|i: int, j: int| 0 <= i < j < e.len() ==> #[trigger] e[i].0 != #[trigger] e[j].0
}

/// The entries after `put(k, b)`: a known key is updated and becomes the
/// most recent; a new key becomes the most recent, the least recent entry
/// leaving a full cache; a cache of capacity zero keeps nothing.
pub open spec fn put_into<V>(e: Seq<(Seq<char>, V)>, cap: nat, k: Seq<char>, b: V) -> Seq<(Seq<char>, V)> {
    let p = key_pos(e, k);
    if p < e.len() {
        e.remove(p).push((k, b))
    } else if cap == 0 {
        e
    } else if e.len() >= cap {
        e.drop_first().push((k, b))
    } else {
        e.push((k, b))
    }
}

/// The entries after a lookup of `k`: a found entry becomes the most recent.
pub open spec fn touched<V>(e: Seq<(Seq<char>, V)>, k: Seq<char>) -> Seq<(Seq<char>, V)> {
    let p = key_pos(e, k);
    if p < e.len() {
        e.remove(p).push(e[p])
    } else {
        e
    }
}

/// The entries without key `k`.
pub open spec fn without<V>(e: Seq<(Seq<char>, V)>, k: Seq<char>) -> Seq<(Seq<char>, V)> {
    let p = key_pos(e, k);
    if p < e.len() {
        e.remove(p)
    } else {
        e
    }
}

/// `a - b`, or zero.
pub open spec fn sat_sub(a: u64, b: u64) -> u64 {
    if a >= b {
        (a - b) as u64
    } else {
        0
    }
}

/// The bytes charged by the entries: the sum of their sizes.
pub open spec fn sizes(e: Seq<(Seq<char>, BitmapView)>) -> nat
    decreases e.len(),
{
    if e.len() == 0 {
        0
    } else {
        e[0].1.cached_size_bytes as nat + sizes(e.drop_first())
    }
}

/// The entries after dropping least recent ones while their sizes exceed
/// `target`.
pub open spec fn evicted(e: Seq<(Seq<char>, BitmapView)>, target: u64) -> Seq<(Seq<char>, BitmapView)>
    decreases e.len(),
{
    if e.len() > 0 && sizes(e) > target {
        evicted(e.drop_first(), target)
    } else {
        e
    }
}

/// The size of the entry that `put_into(e, cap, k, _)` replaces or drops:
/// the one under `k`, else the least recent one of a full cache.
pub open spec fn put_dropped(e: Seq<(Seq<char>, BitmapView)>, cap: nat, k: Seq<char>) -> nat {
    let p = key_pos(e, k);
    if p < e.len() {
        e[p].1.cached_size_bytes as nat
    } else if cap > 0 && e.len() >= cap {
        e[0].1.cached_size_bytes as nat
    } else {
        0
    }
}

/// Position of the registry entry for `id`, or the number of entries.
pub open spec fn reg_pos(r: Seq<RegView>, id: Seq<char>) -> int
    decreases r.len(),
{
    if r.len() == 0 {
        0
    } else if r[0].id == id {
        0
    } else {
        1 + reg_pos(r.drop_first(), id)
    }
}

/// The registry with `info` stored under its id.
pub open spec fn reg_put(r: Seq<RegView>, info: RegView) -> Seq<RegView> {
    let p = reg_pos(r, info.id);
    if p < r.len() {
        r.update(p, info)
    } else {
        r.push(info)
    }
}

/// The registry without `id`.
pub open spec fn reg_without(r: Seq<RegView>, id: Seq<char>) -> Seq<RegView> {
    let p = reg_pos(r, id);
    if p < r.len() {
        r.remove(p)
    } else {
        r
    }
}

/// The registry entry for `id`, if any.
pub open spec fn reg_lookup(r: Seq<RegView>, id: Seq<char>) -> Option<RegView> {
    let p = reg_pos(r, id);
    if p < r.len() {
        Some(r[p])
    } else {
        None
    }
}

/// Ids are distinct.
pub open spec fn reg_sound(r: Seq<RegView>) -> bool {
    forall|i: int, j: int| 0 <= i < j < r.len() ==> #[trigger] r[i].id != #[trigger] r[j].id
}

/// The abstract state of an emoji manager.
pub struct EmojiView {
    /// Cache entries, least recently used first.
    pub entries: Seq<(Seq<char>, BitmapView)>,
    pub capacity: nat,
    pub registry: Seq<RegView>,
    pub max_total_bytes: u64,
    pub max_bitmap_bytes: u64,
    /// Bytes charged to the cache.
    pub total_bytes: u64,
    pub config: EmojiCacheConfig,
    pub next_id: u64,
}

impl EmojiView {
    /// Distinct keys within the capacity, distinct registry ids.
    pub open spec fn wf(self) -> bool {
        &&& lru_sound(self.entries, self.capacity)
        &&& 16 <= self.capacity <= 1024
        &&& reg_sound(self.registry)
        &&& self.total_bytes == sizes(self.entries)
    }

    /// The manager after making room for `size` more bytes: when they do
    /// not fit the budget, least recent entries leave until the rest fits
    /// beside them (all of them when `size` alone exceeds the budget).
    pub open spec fn with_room_for(self, size: u64) -> EmojiView {
        if self.total_bytes + size > self.max_total_bytes {
            let e = evicted(self.entries, sat_sub(self.max_total_bytes, size));
            EmojiView { entries: e, total_bytes: sizes(e) as u64, ..self }
        } else {
            self
        }
    }

    /// The manager after caching `b` under its id; the byte count is that
    /// of the entries kept.
    pub open spec fn stored(self, b: BitmapView) -> EmojiView {
        let e = put_into(self.entries, self.capacity, b.id, b);
        EmojiView { entries: e, total_bytes: sizes(e) as u64, ..self }
    }

    /// The manager after caching `b` under its id and recording `info`.
    pub open spec fn cached(self, b: BitmapView, info: RegView) -> EmojiView {
        EmojiView { registry: reg_put(self.registry, info), ..self.stored(b) }
    }

    /// The outcome of registering the decoded bitmap `b`: too large a bitmap
    /// is refused; otherwise room is made, then a bitmap whose data does not
    /// match its size is refused and any other is cached.
    pub open spec fn registered(self, b: BitmapView, info: RegView) -> (EmojiView, bool) {
        if b.rgba_data.len() > self.max_bitmap_bytes {
            (self, false)
        } else {
            let v1 = self.with_room_for(b.rgba_data.len() as u64);
            if b.rgba_data.len() != b.width * b.height * 4 {
                (v1, false)
            } else {
                (v1.cached(b, info), true)
            }
        }
    }

    /// The outcome of registering pixels decoded from the image downloaded
    /// from `url`: pixels within the single-bitmap budget whose four bytes per
    /// pixel overflow `u32` are refused with nothing changed; any others as in
    /// `registered`.
    pub open spec fn url_registered(
        self,
        id: Seq<char>,
        url: Seq<char>,
        w: u32,
        h: u32,
        data: Seq<u8>,
    ) -> (EmojiView, bool) {
        if data.len() <= self.max_bitmap_bytes && w * h * 4 > u32::MAX {
            (self, false)
        } else {
            self.registered(
                decoded_bitmap(id, w, h, data, RegisterMethod::Url, None, None),
                reg_entry(id, RegisterMethod::Url, None, Some(url), w, h),
            )
        }
    }

    /// The cached bitmap of `id`, if any.
    pub open spec fn lookup(self, id: Seq<char>) -> Option<BitmapView> {
        let p = key_pos(self.entries, id);
        if p < self.entries.len() {
            Some(self.entries[p].1)
        } else {
            None
        }
    }

    /// The manager after reloading `id` from the file at `path`, which
    /// `decoded` holds the decoding of (width, height, pixels, modification
    /// time), if any: the old bitmap leaves the cache; pixels of four bytes
    /// each are cached as the most recent after room is made for them.
    pub open spec fn reloaded(
        self,
        id: Seq<char>,
        path: Seq<char>,
        decoded: Option<(u32, u32, Seq<u8>, Option<u128>)>,
    ) -> EmojiView {
        let v1 = EmojiView {
            entries: without(self.entries, id),
            total_bytes: match self.lookup(id) {
                Some(b) => sat_sub(self.total_bytes, b.cached_size_bytes),
                None => self.total_bytes,
            },
            ..self
        };
        match decoded {
            Some((w, h, data, modified)) => if data.len() == w * h * 4 {
                v1.with_room_for(data.len() as u64).stored(
                    decoded_bitmap(id, w, h, data, RegisterMethod::File, Some(path), modified),
                )
            } else {
                v1
            },
            None => v1,
        }
    }
}

/// A bitmap registered from raw pixels.
pub open spec fn rgba_bitmap(id: Seq<char>, width: u32, height: u32, data: Seq<u8>) -> BitmapView {
    BitmapView {
        id,
        width,
        height,
        rgba_data: data,
        cached_size_bytes: data.len() as u64,
        file_modified: None,
        file_path: None,
        register_method: RegisterMethod::Rgba,
    }
}

/// Why an id is refused: empty, longer than 128 bytes.
pub open spec fn id_refused(id: &str) -> bool {
    id@.len() == 0 || id.len() > 128
}

/// Why raw pixels are refused: a bad id (or one holding NUL), a zero or
/// larger than 1024 side, data not of four bytes per pixel, data larger than
/// the single-bitmap budget.
pub open spec fn rgba_refused(id: &str, width: u32, height: u32, len: nat, max_bitmap_bytes: u64) -> bool {
    ||| id_refused(id)
    ||| id@.contains('\0')
    ||| width == 0 || height == 0
    ||| width > 1024 || height > 1024
    ||| len != width * height * 4
    ||| len > max_bitmap_bytes
}

/// Calls `LruCache::new`: an empty cache holding at most `cap` entries.
#[verifier::external_body]
fn lru_new(cap: usize) -> (r: LruCache<String, Arc<EmojiBitmap>>)
    ensures
        lru_contents(r) == Seq::<(Seq<char>, BitmapView)>::empty(),
        lru_capacity(r) == cap,
{
    LruCache::new(cap)
}

/// Calls `LruCache::push`: stores `v` under `k` as the most recent entry
/// and hands back the entry it replaced (the old one under `k`) or dropped
/// (the least recent one of a full cache, for a new key).
#[verifier::external_body]
fn lru_push(c: &mut LruCache<String, Arc<EmojiBitmap>>, k: String, v: Arc<EmojiBitmap>) -> (r: Option<
    (String, Arc<EmojiBitmap>),
>)
    requires
        lru_sound(lru_contents(*old(c)), lru_capacity(*old(c))),
    ensures
        lru_capacity(*final(c)) == lru_capacity(*old(c)),
        lru_contents(*final(c)) == put_into(
            lru_contents(*old(c)),
            lru_capacity(*old(c)),
            k@,
            (*v)@,
        ),
        ({
            let e = lru_contents(*old(c));
            let cap = lru_capacity(*old(c));
            let p = key_pos(e, k@);
            if p < e.len() {
                r matches Some((_, a)) && (*a)@ == e[p].1
            } else if cap > 0 && e.len() >= cap {
                r matches Some((_, a)) && (*a)@ == e[0].1
            } else {
                r is None
            }
        }),
{
    c.push(k, v)
}

/// Calls `LruCache::get` and clones the `Arc` found: a found entry becomes
/// the most recent.
#[verifier::external_body]
fn lru_get(c: &mut LruCache<String, Arc<EmojiBitmap>>, k: &str) -> (r: Option<Arc<EmojiBitmap>>)
    requires
        lru_sound(lru_contents(*old(c)), lru_capacity(*old(c))),
    ensures
        lru_capacity(*final(c)) == lru_capacity(*old(c)),
        lru_contents(*final(c)) == touched(lru_contents(*old(c)), k@),
        ({
            let e = lru_contents(*old(c));
            let p = key_pos(e, k@);
            match r {
                Some(a) => p < e.len() && (*a)@ == e[p].1,
                None => p >= e.len(),
            }
        }),
{
    c.get(k).cloned()
}

/// Calls `LruCache::contains`: whether `k` has an entry (the order is kept).
#[verifier::external_body]
fn lru_contains(c: &LruCache<String, Arc<EmojiBitmap>>, k: &str) -> (r: bool)
    ensures
        r == (key_pos(lru_contents(*c), k@) < lru_contents(*c).len()),
{
    c.contains(k)
}

/// Calls `LruCache::pop`: removes the entry of `k` and hands back its value.
#[verifier::external_body]
fn lru_pop(c: &mut LruCache<String, Arc<EmojiBitmap>>, k: &str) -> (r: Option<Arc<EmojiBitmap>>)
    ensures
        lru_capacity(*final(c)) == lru_capacity(*old(c)),
        lru_contents(*final(c)) == without(lru_contents(*old(c)), k@),
        ({
            let e = lru_contents(*old(c));
            let p = key_pos(e, k@);
            match r {
                Some(a) => p < e.len() && (*a)@ == e[p].1,
                None => p >= e.len(),
            }
        }),
{
    c.pop(k)
}

/// Calls `LruCache::pop_lru`: removes and hands back the least recent entry.
#[verifier::external_body]
fn lru_pop_lru(c: &mut LruCache<String, Arc<EmojiBitmap>>) -> (r: Option<(String, Arc<EmojiBitmap>)>)
    ensures
        lru_capacity(*final(c)) == lru_capacity(*old(c)),
        ({
            let e = lru_contents(*old(c));
            match r {
                Some((k, a)) => {
                    &&& e.len() > 0
                    &&& k@ == e[0].0
                    &&& (*a)@ == e[0].1
                    &&& lru_contents(*final(c)) == e.drop_first()
                },
                None => e.len() == 0 && lru_contents(*final(c)) == e,
            }
        }),
{
    c.pop_lru()
}

/// Calls `LruCache::len`: the number of entries.
#[verifier::external_body]
fn lru_len(c: &LruCache<String, Arc<EmojiBitmap>>) -> (r: usize)
    ensures
        r == lru_contents(*c).len(),
{
    c.len()
}

/// Calls `LruCache::clear`: removes every entry.
#[verifier::external_body]
fn lru_clear(c: &mut LruCache<String, Arc<EmojiBitmap>>)
    ensures
        lru_capacity(*final(c)) == lru_capacity(*old(c)),
        lru_contents(*final(c)) == Seq::<(Seq<char>, BitmapView)>::empty(),
{
    c.clear()
}

/// Calls `image::load_from_memory`, which guesses the format of `bytes` and
/// decodes them, and where that succeeds `DynamicImage::to_rgba8`, taking the
/// buffer apart: width, height and pixels, four bytes per pixel. The outcome
/// depends on the bytes alone.
#[verifier::external_body]
fn decode_rgba8(bytes: &[u8]) -> (r: Result<(u32, u32, Vec<u8>), ImageError>)
    ensures
        (match r {
            Ok((w, h, data)) => rgba8_decoded(bytes@) == Some((w, h, data@)) && data@.len() == w * h
                * 4,
            Err(_) => rgba8_decoded(bytes@) is None,
        }),
{
    match image::load_from_memory(bytes) {
        Ok(img) => {
            let rgba = img.to_rgba8();
            let (w, h) = rgba.dimensions();
            Ok((w, h, rgba.into_raw()))
        },
        Err(e) => Err(e),
    }
}

/// Calls `ImageFormat::from_path`, which picks the format from the
/// extension of `path`, then `image::load_from_memory_with_format` on
/// `bytes` in that format and `DynamicImage::to_rgba8`, taking the buffer
/// apart: width, height and pixels, four bytes per pixel. The outcome
/// depends on the path and the bytes alone.
#[verifier::external_body]
fn decode_file_rgba8(path: &str, bytes: &[u8]) -> (r: Result<(u32, u32, Vec<u8>), ImageError>)
    ensures
        (match r {
            Ok((w, h, data)) => file_decoded(path@, bytes@) == Some((w, h, data@)) && data@.len() == w
                * h * 4,
            Err(_) => file_decoded(path@, bytes@) is None,
        }),
{
    let format = ImageFormat::from_path(path)?;
    let rgba = image::load_from_memory_with_format(bytes, format)?.to_rgba8();
    let (w, h) = rgba.dimensions();
    Ok((w, h, rgba.into_raw()))
}

/// Whether `s` starts with `prefix`.
pub open spec fn starts_with(s: Seq<char>, prefix: Seq<char>) -> bool {
    prefix.len() <= s.len() && s.subrange(0, prefix.len() as int) == prefix
}

/// Why a URL registration is refused before downloading: a bad id, a
/// scheme other than http or https, a URL longer than 2048 bytes.
pub open spec fn url_refused(id: &str, url: &str) -> bool {
    ||| id_refused(id)
    ||| !starts_with(url@, seq!['h', 't', 't', 'p', ':', '/', '/']) && !starts_with(
        url@,
        seq!['h', 't', 't', 'p', 's', ':', '/', '/'],
    )
    ||| url.len() > 2048
}

/// A decoded bitmap of the given origin.
pub open spec fn decoded_bitmap(
    id: Seq<char>,
    width: u32,
    height: u32,
    data: Seq<u8>,
    method: RegisterMethod,
    file_path: Option<Seq<char>>,
    modified: Option<u128>,
) -> BitmapView {
    BitmapView {
        id,
        width,
        height,
        rgba_data: data,
        cached_size_bytes: data.len() as u64,
        file_modified: modified,
        file_path,
        register_method: method,
    }
}

/// The registry entry of an emoji of the given origin.
pub open spec fn reg_entry(
    id: Seq<char>,
    method: RegisterMethod,
    file_path: Option<Seq<char>>,
    url: Option<Seq<char>>,
    width: u32,
    height: u32,
) -> RegView {
    RegView { id, register_method: method, file_path, url, width, height }
}

/// Formats the message of a pixel buffer of the wrong length.
#[verifier::external_body]
fn length_mismatch_message(expected: usize, actual: usize) -> (r: String) {
    format!("RGBA 数据长度不匹配: 期望 {} 字节, 实际 {} 字节", expected, actual)
}

/// Formats the message of a bitmap over the single-bitmap budget.
#[verifier::external_body]
fn too_large_message(actual: usize, max: u64) -> (r: String) {
    format!("贴图数据过大: {} 字节, 最大允许 {} 字节", actual, max)
}

/// Formats the message of an image file that does not decode.
#[verifier::external_body]
fn file_decode_failed_message(path: &str, e: &ImageError) -> (r: String) {
    format!("图片解码失败: {}: {}", path, e)
}

/// Formats the message of an image that does not decode.
#[verifier::external_body]
fn decode_failed_message(e: &ImageError) -> (r: String) {
    format!("图片数据解码失败: {}", e)
}

impl EmojiBitmap {
    /// A bitmap registered from raw pixels; `Err` unless the data holds four
    /// bytes per pixel.
    pub fn new(id: &str, width: u32, height: u32, rgba_data: Vec<u8>) -> (r: Result<Self, String>)
        requires
            width * height * 4 <= u32::MAX,
        ensures
            r is Ok <==> rgba_data@.len() == width * height * 4,
            r matches Ok(b) ==> b@ == rgba_bitmap(id@, width, height, rgba_data@),
    {
        assert(width * height <= width * height * 4) by (nonlinear_arith);
        let expected_len = (width * height * 4) as usize;
        if rgba_data.len() != expected_len {
            return Err(length_mismatch_message(expected_len, rgba_data.len()));
        }
        let size_bytes = rgba_data.len() as u64;
        Ok(EmojiBitmap {
            id: id.to_owned(),
            width,
            height,
            rgba_data,
            cached_size_bytes: size_bytes,
            file_modified: None,
            file_path: None,
            register_method: RegisterMethod::Rgba,
        })
    }

    /// The pixel bytes.
    pub fn as_bytes(&self) -> (r: &[u8])
        ensures
            r@ == self@.rgba_data,
    {
        self.rgba_data.as_slice()
    }

    /// Number of pixels.
    pub fn pixel_count(&self) -> (r: u64)
        ensures
            r == self.width * self.height,
    {
        assert(self.width * self.height <= 0xFFFF_FFFF * 0xFFFF_FFFF) by (nonlinear_arith);
        self.width as u64 * self.height as u64
    }
}

/// Manages emoji bitmaps in an LRU cache under a byte budget.
pub struct EmojiManager {
    cache: LruCache<String, Arc<EmojiBitmap>>,
    registry: Vec<RegistryInfo>,
    max_total_bytes: u64,
    max_bitmap_bytes: u64,
    total_bytes: u64,
    config: EmojiCacheConfig,
    next_id: u64,
}

impl View for EmojiManager {
    type V = EmojiView;

    closed spec fn view(&self) -> EmojiView {
        EmojiView {
            entries: lru_contents(self.cache),
            capacity: lru_capacity(self.cache),
            registry: self.registry@.map_values(|r: RegistryInfo| r@),
            max_total_bytes: self.max_total_bytes,
            max_bitmap_bytes: self.max_bitmap_bytes,
            total_bytes: self.total_bytes,
            config: self.config,
            next_id: self.next_id,
        }
    }
}

impl EmojiManager {
    /// A manager caching at most `clamp(config.max_entries, 16, 1024)`
    /// bitmaps under the configured byte budgets.
    pub fn new(config: EmojiCacheConfig) -> (r: Self)
        ensures
            r@.wf(),
            r@.entries.len() == 0,
            r@.capacity == clamp(config.max_entries as int, 16, 1024),
            r@.registry.len() == 0,
            r@.max_total_bytes == config.max_total_cache_bytes,
            r@.max_bitmap_bytes == config.max_bitmap_bytes,
            r@.total_bytes == 0,
            r@.config == config,
            r@.next_id == 0,
    {
        let m = config.max_entries;
        let max_entries: usize = if m > 1024 {
            1024
        } else if m < 16 {
            16
        } else {
            m as usize
        };
        let r = EmojiManager {
            cache: lru_new(max_entries),
            registry: Vec::new(),
            max_total_bytes: config.max_total_cache_bytes,
            max_bitmap_bytes: config.max_bitmap_bytes,
            total_bytes: 0,
            config,
            next_id: 0,
        };
        assert(r@.registry =~= Seq::empty());
        r
    }

    /// A manager with the default configuration.
    pub fn with_default_config() -> (r: Self)
        ensures
            r@.wf(),
            r@.entries.len() == 0,
            r@.capacity == 256,
            r@.registry.len() == 0,
            r@.max_total_bytes == 64 * 1024 * 1024,
            r@.max_bitmap_bytes == 4 * 1024 * 1024,
            r@.total_bytes == 0,
    {
        Self::new(EmojiCacheConfig::default())
    }

    /// Whether an id is accepted: not empty, at most 128 bytes.
    pub fn emoji_id_valid(id: &str) -> (r: bool)
        ensures
            r == !id_refused(id),
    {
        !(id.is_empty() || id.len() > 128)
    }

    /// Registers raw RGBA pixels under `id`.
    ///
    /// Refused, with nothing changed: an empty id or one over 128 bytes, an
    /// id holding NUL, a zero side, a side over 1024, data not of four bytes
    /// per pixel, data over the single-bitmap budget. Otherwise room is made
    /// in the cache and the bitmap cached and recorded.
    pub fn register_from_rgba(&mut self, id: &str, width: u32, height: u32, rgba_data: &[u8]) -> (r:
        Result<(), String>)
        requires
            old(self)@.wf(),
        ensures
            final(self)@.wf(),
            r is Err <==> rgba_refused(id, width, height, rgba_data@.len(), old(self)@.max_bitmap_bytes),
            r is Err ==> final(self)@ == old(self)@,
            r is Ok ==> final(self)@ == old(self)@.registered(
                rgba_bitmap(id@, width, height, rgba_data@),
                reg_entry(id@, RegisterMethod::Rgba, None, None, width, height),
            ).0,
    {
        if id.is_empty() || id.len() > 128 {
            return Err("Emoji ID 为空或过长（超过 128 字符）".to_owned());
        }
        if Self::holds_nul(id) {
            return Err("Emoji ID 包含 null 字符".to_owned());
        }
        if width == 0 || height == 0 {
            return Err("图像尺寸无效（宽高不能为 0）".to_owned());
        }
        if width > 1024 || height > 1024 {
            return Err("图像尺寸过大（最大 1024x1024）".to_owned());
        }
        assert(width * height <= 1024 * 1024) by (nonlinear_arith)
            requires
                width <= 1024,
                height <= 1024,
        ;
        let expected_len = (width * height * 4) as usize;
        if rgba_data.len() != expected_len {
            return Err(length_mismatch_message(expected_len, rgba_data.len()));
        }
        if rgba_data.len() as u64 > self.max_bitmap_bytes {
            return Err(too_large_message(rgba_data.len(), self.max_bitmap_bytes));
        }
        let data = Self::copy_of(rgba_data);
        let r = self.store_decoded(id, width, height, data, RegisterMethod::Rgba, None, None, None);
        assert(rgba_bitmap(id@, width, height, rgba_data@) == decoded_bitmap(
            id@,
            width,
            height,
            rgba_data@,
            RegisterMethod::Rgba,
            None,
            None,
        ));
        r
    }

    /// Whether `id` holds a NUL character.
    fn holds_nul(id: &str) -> (r: bool)
        ensures
            r == id@.contains('\0'),
    {
        let cs = chars_of(id);
        let n = cs.len();
        let mut i: usize = 0;
        while i < n
            invariant
                0 <= i <= n,
                n == cs@.len(),
                cs@ == id@,
                forall|k: int| 0 <= k < i ==> cs@[k] != '\0',
            decreases n - i,
        {
            if cs[i] == '\0' {
                assert(id@[i as int] == '\0');
                return true;
            }
            i = i + 1;
        }
        false
    }

    /// A copy of `src`.
    fn copy_of(src: &[u8]) -> (r: Vec<u8>)
        ensures
            r@ == src@,
    {
        let n = src.len();
        let mut r: Vec<u8> = Vec::with_capacity(n);
        let mut i: usize = 0;
        while i < n
            invariant
                0 <= i <= n,
                n == src@.len(),
                r@ == src@.subrange(0, i as int),
            decreases n - i,
        {
            r.push(src[i]);
            i = i + 1;
            assert(r@ =~= src@.subrange(0, i as int));
        }
        assert(src@.subrange(0, n as int) =~= src@);
        r
    }

    /// Registers the image file at `file_path`, read as `file_bytes` and
    /// modified at `file_modified` (nanoseconds since the Unix epoch): a bad
    /// id is refused first, then a file over 32 MiB, then one that does not
    /// decode by the format its extension names; the decoded pixels then go
    /// as in `register_decoded_file`.
    pub fn register_file_bytes(
        &mut self,
        id: &str,
        file_path: &str,
        file_bytes: &[u8],
        file_modified: Option<u128>,
    ) -> (r: Result<(), String>)
        requires
            old(self)@.wf(),
        ensures
            final(self)@.wf(),
            id_refused(id) || file_bytes@.len() > MAX_IMAGE_FILE_BYTES ==> r is Err && final(self)@
                == old(self)@,
            !id_refused(id) && file_bytes@.len() <= MAX_IMAGE_FILE_BYTES ==> (match file_decoded(
                file_path@,
                file_bytes@,
            ) {
                None => r is Err && final(self)@ == old(self)@,
                Some((w, h, data)) => {
                    let (v, ok) = old(self)@.registered(
                        decoded_bitmap(
                            id@,
                            w,
                            h,
                            data,
                            RegisterMethod::File,
                            Some(file_path@),
                            file_modified,
                        ),
                        reg_entry(id@, RegisterMethod::File, Some(file_path@), None, w, h),
                    );
                    final(self)@ == v && (r is Ok <==> ok)
                },
            }),
    {
        if !Self::emoji_id_valid(id) {
            return Err("Emoji ID 无效".to_owned());
        }
        if file_bytes.len() > MAX_IMAGE_FILE_BYTES {
            return Err("文件过大（超过 32MB）".to_owned());
        }
        match decode_file_rgba8(file_path, file_bytes) {
            Ok((w, h, data)) => self.register_decoded_file(id, file_path, w, h, data, file_modified),
            Err(e) => Err(file_decode_failed_message(file_path, &e)),
        }
    }

    /// Reloads `id` from its file at `file_path`, read as `file_bytes` and
    /// modified at `file_modified` (`None` for a file that could not be
    /// read): the bytes are decoded by the format the extension names, then
    /// as in `reload_with`.
    pub fn reload_from_bytes(
        &mut self,
        id: &str,
        file_path: String,
        file_bytes: Option<&[u8]>,
        file_modified: Option<u128>,
    )
        requires
            old(self)@.wf(),
        ensures
            final(self)@.wf(),
            final(self)@ == old(self)@.reloaded(
                id@,
                file_path@,
                match file_bytes {
                    Some(b) => match file_decoded(file_path@, b@) {
                        Some((w, h, data)) => Some((w, h, data, file_modified)),
                        None => None,
                    },
                    None => None,
                },
            ),
    {
        let decoded = match file_bytes {
            Some(b) => match decode_file_rgba8(file_path.as_str(), b) {
                Ok((w, h, data)) => Some((w, h, data, file_modified)),
                Err(_) => None,
            },
            None => None,
        };
        self.reload_with(id, file_path, decoded);
    }

    /// Registers an image file that was decoded to `width` x `height` RGBA
    /// pixels, modified at `file_modified` (nanoseconds since the Unix
    /// epoch). A bad id is refused first; then as in `registered`.
    pub fn register_decoded_file(
        &mut self,
        id: &str,
        file_path: &str,
        width: u32,
        height: u32,
        rgba_data: Vec<u8>,
        file_modified: Option<u128>,
    ) -> (r: Result<(), String>)
        requires
            old(self)@.wf(),
        ensures
            final(self)@.wf(),
            id_refused(id) ==> r is Err && final(self)@ == old(self)@,
            !id_refused(id) ==> ({
                let (v, ok) = old(self)@.registered(
                    decoded_bitmap(
                        id@,
                        width,
                        height,
                        rgba_data@,
                        RegisterMethod::File,
                        Some(file_path@),
                        file_modified,
                    ),
                    reg_entry(id@, RegisterMethod::File, Some(file_path@), None, width, height),
                );
                final(self)@ == v && (r is Ok <==> ok)
            }),
    {
        if !Self::emoji_id_valid(id) {
            return Err("Emoji ID 无效".to_owned());
        }
        self.store_decoded(
            id,
            width,
            height,
            rgba_data,
            RegisterMethod::File,
            Some(file_path.to_owned()),
            None,
            file_modified,
        )
    }

    /// Checks a URL registration before anything is downloaded.
    pub fn validate_url_registration(id: &str, url: &str) -> (r: Result<(), String>)
        ensures
            r is Err <==> url_refused(id, url),
    {
        if !Self::emoji_id_valid(id) {
            return Err("Emoji ID 无效".to_owned());
        }
        let cs = chars_of(url);
        let http: Vec<char> = vec!['h', 't', 't', 'p', ':', '/', '/'];
        let https: Vec<char> = vec!['h', 't', 't', 'p', 's', ':', '/', '/'];
        assert(http@ =~= seq!['h', 't', 't', 'p', ':', '/', '/']);
        assert(https@ =~= seq!['h', 't', 't', 'p', 's', ':', '/', '/']);
        if !crate::network::prefixed(&cs, &http) && !crate::network::prefixed(&cs, &https) {
            return Err(crate::network::unsupported_scheme_message(url));
        }
        if url.len() > 2048 {
            return Err("URL 过长".to_owned());
        }
        Ok(())
    }

    /// Registers the pixels decoded from the image downloaded from `url`:
    /// the URL checks of `validate_url_registration` first, then as in
    /// `EmojiView::url_registered`.
    pub fn register_decoded_url(
        &mut self,
        id: &str,
        url: &str,
        width: u32,
        height: u32,
        rgba_data: Vec<u8>,
    ) -> (r: Result<(), String>)
        requires
            old(self)@.wf(),
        ensures
            final(self)@.wf(),
            url_refused(id, url) ==> r is Err && final(self)@ == old(self)@,
            !url_refused(id, url) ==> ({
                let (v, ok) = old(self)@.url_registered(id@, url@, width, height, rgba_data@);
                final(self)@ == v && (r is Ok <==> ok)
            }),
    {
        match Self::validate_url_registration(id, url) {
            Err(e) => {
                return Err(e);
            },
            Ok(()) => {},
        }
        assert(width * height <= 0xFFFF_FFFF * 0xFFFF_FFFF) by (nonlinear_arith);
        if rgba_data.len() as u64 <= self.max_bitmap_bytes && width as u128 * height as u128 * 4
            > u32::MAX as u128 {
            return Err("解码后的图像数据过大".to_owned());
        }
        self.store_decoded(
            id,
            width,
            height,
            rgba_data,
            RegisterMethod::Url,
            None,
            Some(url.to_owned()),
            None,
        )
    }

    /// Registers a downloaded image: the URL checks of
    /// `validate_url_registration`, then the bytes are decoded (`Err` when
    /// they do not decode), then the decoded pixels as in
    /// `EmojiView::url_registered`.
    pub fn register_url_image(&mut self, id: &str, url: &str, image_data: &[u8]) -> (r: Result<
        (),
        String,
    >)
        requires
            old(self)@.wf(),
        ensures
            final(self)@.wf(),
            url_refused(id, url) ==> r is Err && final(self)@ == old(self)@,
            !url_refused(id, url) ==> (match rgba8_decoded(image_data@) {
                None => r is Err && final(self)@ == old(self)@,
                Some((w, h, data)) => {
                    let (v, ok) = old(self)@.url_registered(id@, url@, w, h, data);
                    final(self)@ == v && (r is Ok <==> ok)
                },
            }),
    {
        match Self::validate_url_registration(id, url) {
            Err(e) => {
                return Err(e);
            },
            Ok(()) => {},
        }
        match decode_rgba8(image_data) {
            Ok((w, h, data)) => self.register_decoded_url(id, url, w, h, data),
            Err(e) => Err(decode_failed_message(&e)),
        }
    }

    /// Caches a decoded bitmap and records it: see `EmojiView::registered`.
    fn store_decoded(
        &mut self,
        id: &str,
        width: u32,
        height: u32,
        rgba_data: Vec<u8>,
        method: RegisterMethod,
        file_path: Option<String>,
        url: Option<String>,
        file_modified: Option<u128>,
    ) -> (r: Result<(), String>)
        requires
            old(self)@.wf(),
        ensures
            final(self)@.wf(),
            ({
                let (v, ok) = old(self)@.registered(
                    decoded_bitmap(
                        id@,
                        width,
                        height,
                        rgba_data@,
                        method,
                        opt_view(file_path),
                        file_modified,
                    ),
                    reg_entry(id@, method, opt_view(file_path), opt_view(url), width, height),
                );
                final(self)@ == v && (r is Ok <==> ok)
            }),
    {
        if rgba_data.len() as u64 > self.max_bitmap_bytes {
            return Err("解码后的图像数据过大".to_owned());
        }
        let new_size = rgba_data.len() as u64;
        if self.total_bytes as u128 + new_size as u128 > self.max_total_bytes as u128 {
            self.evict_until(self.max_total_bytes.saturating_sub(new_size));
        }
        assert(width * height <= 0xFFFF_FFFF * 0xFFFF_FFFF) by (nonlinear_arith);
        let expected: u128 = width as u128 * height as u128 * 4;
        if rgba_data.len() as u128 != expected {
            return Err(length_mismatch_message(#[verifier::truncate] (expected as usize), rgba_data.len()));
        }
        let kept_path = match &file_path {
            Some(p) => Some(p.clone()),
            None => None,
        };
        let bitmap = EmojiBitmap {
            id: id.to_owned(),
            width,
            height,
            rgba_data,
            cached_size_bytes: new_size,
            file_modified,
            file_path: kept_path,
            register_method: method,
        };
        self.put_bitmap(id.to_owned(), bitmap);
        self.record(RegistryInfo { id: id.to_owned(), register_method: method, file_path, url, width, height });
        Ok(())
    }

    /// Caches `bitmap` under its id as the most recent entry; the byte
    /// count loses the entry replaced or dropped and gains the new one.
    fn put_bitmap(&mut self, key: String, bitmap: EmojiBitmap)
        requires
            old(self)@.wf(),
            key@ == bitmap@.id,
            old(self)@.total_bytes + bitmap.cached_size_bytes <= u64::MAX,
        ensures
            final(self)@.wf(),
            final(self)@ == old(self)@.stored(bitmap@),
    {
        let ghost e0 = self@.entries;
        let ghost cap = self@.capacity;
        let size = bitmap.cached_size_bytes;
        proof {
            lemma_put_sound(e0, cap, key@, bitmap@);
            lemma_sizes_put(e0, cap, key@, bitmap@);
        }
        match lru_push(&mut self.cache, key, Arc::new(bitmap)) {
            Some((_k, dropped)) => {
                self.total_bytes = self.total_bytes - dropped.cached_size_bytes;
            },
            None => {},
        }
        self.total_bytes = self.total_bytes + size;
    }

    /// Stores `info` under its id in the registry.
    fn record(&mut self, info: RegistryInfo)
        requires
            reg_sound(old(self)@.registry),
        ensures
            final(self)@ == (EmojiView { registry: reg_put(old(self)@.registry, info@), ..old(self)@ }),
            reg_sound(final(self)@.registry),
    {
        let ghost r0 = old(self)@.registry;
        proof {
            lemma_reg_pos(r0, info@.id);
        }
        let p = self.registry_pos(&info.id);
        if p < self.registry.len() {
            self.registry.set(p, info);
            assert(self@.registry =~= r0.update(p as int, info@));
        } else {
            self.registry.push(info);
            assert(self@.registry =~= r0.push(info@));
        }
    }

    /// Position of the registry entry for `id`, or the number of entries.
    fn registry_pos(&self, id: &String) -> (r: usize)
        ensures
            r == reg_pos(self@.registry, id@),
    {
        let n = self.registry.len();
        let mut i: usize = 0;
        assert(self@.registry.skip(0) =~= self@.registry);
        while i < n
            invariant
                0 <= i <= n,
                n == self@.registry.len(),
                reg_pos(self@.registry, id@) == i + reg_pos(self@.registry.skip(i as int), id@),
            decreases n - i,
        {
            assert(self@.registry.skip(i as int)[0] == self@.registry[i as int]);
            if self.registry[i].id == *id {
                return i;
            }
            assert(self@.registry.skip(i as int).drop_first() =~= self@.registry.skip(i + 1));
            i = i + 1;
        }
        n
    }

    /// Drops least recent entries while the byte count exceeds `target`.
    fn evict_until(&mut self, target: u64)
        requires
            old(self)@.wf(),
        ensures
            final(self)@.wf(),
            final(self)@ == (EmojiView {
                entries: evicted(old(self)@.entries, target),
                total_bytes: sizes(evicted(old(self)@.entries, target)) as u64,
                ..old(self)@
            }),
            final(self)@.total_bytes <= target,
    {
        while self.total_bytes > target && lru_len(&self.cache) > 0
            invariant
                self@.wf(),
                self@.capacity == old(self)@.capacity,
                self@.registry == old(self)@.registry,
                self.max_total_bytes == old(self).max_total_bytes,
                self.max_bitmap_bytes == old(self).max_bitmap_bytes,
                self.config == old(self).config,
                self.next_id == old(self).next_id,
                evicted(self@.entries, target) == evicted(old(self)@.entries, target),
            decreases self@.entries.len(),
        {
            let ghost e0 = self@.entries;
            match lru_pop_lru(&mut self.cache) {
                Some((_k, b)) => {
                    self.total_bytes = self.total_bytes - b.cached_size_bytes;
                    proof {
                        lemma_drop_first_sound(e0, self@.capacity);
                    }
                },
                None => {},
            }
        }
        proof {
            lemma_evicted(old(self)@.entries, old(self)@.capacity, target);
        }
    }

    /// Width, height and size of the bitmap of `id`, which becomes the most
    /// recently used.
    pub fn get_emoji_info(&mut self, id: &str) -> (r: Option<(u32, u32, u64)>)
        requires
            old(self)@.wf(),
        ensures
            final(self)@.wf(),
            final(self)@ == (EmojiView { entries: touched(old(self)@.entries, id@), ..old(self)@ }),
            r == match old(self)@.lookup(id@) {
                Some(b) => Some((b.width, b.height, b.cached_size_bytes)),
                None => None,
            },
    {
        proof {
            lemma_touched_sound(self@.entries, self@.capacity, id@);
            lemma_sizes_touched(self@.entries, id@);
        }
        match lru_get(&mut self.cache, id) {
            Some(b) => Some((b.width, b.height, b.cached_size_bytes)),
            None => None,
        }
    }

    /// Copies the pixels of `id` into the front of `buffer`; `false`, with
    /// the buffer unchanged, when `id` is unknown or the buffer (or
    /// `buffer_len`) is shorter than the pixels. A found bitmap becomes the
    /// most recently used.
    pub fn copy_emoji_bitmap(&mut self, id: &str, buffer: &mut [u8], buffer_len: usize) -> (r: bool)
        requires
            old(self)@.wf(),
        ensures
            final(self)@.wf(),
            final(self)@ == (EmojiView { entries: touched(old(self)@.entries, id@), ..old(self)@ }),
            r == match old(self)@.lookup(id@) {
                Some(b) => old(buffer)@.len() >= b.rgba_data.len() && buffer_len >= b.rgba_data.len(),
                None => false,
            },
            r ==> final(buffer)@ == old(self)@.lookup(id@)->0.rgba_data + old(buffer)@.skip(
                old(self)@.lookup(id@)->0.rgba_data.len() as int,
            ),
            !r ==> final(buffer)@ == old(buffer)@,
    {
        proof {
            lemma_touched_sound(self@.entries, self@.capacity, id@);
            lemma_sizes_touched(self@.entries, id@);
        }
        match lru_get(&mut self.cache, id) {
            Some(b) => {
                let n = b.rgba_data.len();
                if buffer.len() < n || buffer_len < n {
                    return false;
                }
                let mut i: usize = 0;
                while i < n
                    invariant
                        0 <= i <= n,
                        n == b.rgba_data@.len(),
                        n <= buffer@.len(),
                        buffer@.len() == old(buffer)@.len(),
                        forall|k: int| 0 <= k < i ==> buffer@[k] == b.rgba_data@[k],
                        forall|k: int| i <= k < buffer@.len() ==> buffer@[k] == old(buffer)@[k],
                    decreases n - i,
                {
                    buffer[i] = b.rgba_data[i];
                    i = i + 1;
                }
                assert(buffer@ =~= b.rgba_data@ + old(buffer)@.skip(n as int));
                true
            },
            None => false,
        }
    }

    /// A copy of the pixels of `id`, which becomes the most recently used.
    pub fn get_emoji_bitmap_bytes(&mut self, id: &str) -> (r: Option<Vec<u8>>)
        requires
            old(self)@.wf(),
        ensures
            final(self)@.wf(),
            final(self)@ == (EmojiView { entries: touched(old(self)@.entries, id@), ..old(self)@ }),
            match old(self)@.lookup(id@) {
                Some(b) => r matches Some(v) && v@ == b.rgba_data,
                None => r is None,
            },
    {
        proof {
            lemma_touched_sound(self@.entries, self@.capacity, id@);
            lemma_sizes_touched(self@.entries, id@);
        }
        match lru_get(&mut self.cache, id) {
            Some(b) => Some(Self::copy_of(b.rgba_data.as_slice())),
            None => None,
        }
    }

    /// The bitmap of `id`, shared, which becomes the most recently used.
    pub fn get_emoji_ref(&mut self, id: &str) -> (r: Option<Arc<EmojiBitmap>>)
        requires
            old(self)@.wf(),
        ensures
            final(self)@.wf(),
            final(self)@ == (EmojiView { entries: touched(old(self)@.entries, id@), ..old(self)@ }),
            match old(self)@.lookup(id@) {
                Some(b) => r matches Some(a) && (*a)@ == b,
                None => r is None,
            },
    {
        proof {
            lemma_touched_sound(self@.entries, self@.capacity, id@);
            lemma_sizes_touched(self@.entries, id@);
        }
        lru_get(&mut self.cache, id)
    }

    /// Empties the cache and the registry.
    pub fn clear_cache(&mut self)
        requires
            old(self)@.wf(),
        ensures
            final(self)@.wf(),
            final(self)@ == (EmojiView {
                entries: Seq::empty(),
                total_bytes: 0,
                registry: Seq::empty(),
                ..old(self)@
            }),
    {
        lru_clear(&mut self.cache);
        self.total_bytes = 0;
        self.registry.clear();
        assert(self@.registry =~= Seq::empty());
    }

    /// Removes `id` from the cache and the registry; whether it was cached.
    pub fn remove_emoji(&mut self, id: &str) -> (r: bool)
        requires
            old(self)@.wf(),
        ensures
            final(self)@.wf(),
            r == (old(self)@.lookup(id@) is Some),
            final(self)@ == (EmojiView {
                entries: without(old(self)@.entries, id@),
                registry: reg_without(old(self)@.registry, id@),
                total_bytes: match old(self)@.lookup(id@) {
                    Some(b) => sat_sub(old(self)@.total_bytes, b.cached_size_bytes),
                    None => old(self)@.total_bytes,
                },
                ..old(self)@
            }),
    {
        proof {
            lemma_without_sound(self@.entries, self@.capacity, id@);
            lemma_sizes_without(self@.entries, id@);
        }
        let removed = lru_pop(&mut self.cache, id);
        self.unrecord(id);
        match removed {
            Some(b) => {
                self.total_bytes = self.total_bytes.saturating_sub(b.cached_size_bytes);
                true
            },
            None => false,
        }
    }

    /// Removes the registry entry of `id`, if any.
    fn unrecord(&mut self, id: &str)
        requires
            reg_sound(old(self)@.registry),
        ensures
            final(self)@ == (EmojiView { registry: reg_without(old(self)@.registry, id@), ..old(self)@ }),
            reg_sound(final(self)@.registry),
    {
        let key = id.to_owned();
        let p = self.registry_pos(&key);
        let ghost r0 = self@.registry;
        proof {
            lemma_reg_pos(r0, id@);
        }
        if p < self.registry.len() {
            self.registry.remove(p);
            assert(self@.registry =~= r0.remove(p as int));
        }
    }

    /// Bytes charged to the cache.
    pub fn cache_size(&self) -> (r: u64)
        ensures
            r == self@.total_bytes,
    {
        self.total_bytes
    }

    /// Number of cached bitmaps.
    pub fn cache_entries(&self) -> (r: usize)
        ensures
            r == self@.entries.len(),
    {
        lru_len(&self.cache)
    }

    /// Whether `id` is cached (the recency order is kept).
    pub fn has_emoji(&mut self, id: &str) -> (r: bool)
        ensures
            final(self)@ == old(self)@,
            r == (old(self)@.lookup(id@) is Some),
    {
        lru_contains(&self.cache, id)
    }

    /// The file to reload `id` from: its path when it was registered from a
    /// file.
    pub fn reload_source(&self, id: &str) -> (r: Option<String>)
        ensures
            opt_view(r) == match reg_lookup(self@.registry, id@) {
                Some(info) => if info.register_method == RegisterMethod::File {
                    info.file_path
                } else {
                    None
                },
                None => None,
            },
    {
        let key = id.to_owned();
        let p = self.registry_pos(&key);
        if p < self.registry.len() {
            let info = &self.registry[p];
            if info.register_method == RegisterMethod::File {
                match &info.file_path {
                    Some(path) => Some(path.clone()),
                    None => None,
                }
            } else {
                None
            }
        } else {
            None
        }
    }

    /// Whether the cached bitmap of `id` is out of date for a file modified
    /// at `modified`: when it is not cached, when it has no recorded time,
    /// or when the times differ. A found bitmap becomes the most recently
    /// used.
    pub fn cached_file_changed(&mut self, id: &str, modified: u128) -> (r: bool)
        requires
            old(self)@.wf(),
        ensures
            final(self)@.wf(),
            final(self)@ == (EmojiView { entries: touched(old(self)@.entries, id@), ..old(self)@ }),
            r == match old(self)@.lookup(id@) {
                Some(b) => match b.file_modified {
                    Some(t) => modified != t,
                    None => true,
                },
                None => true,
            },
    {
        proof {
            lemma_touched_sound(self@.entries, self@.capacity, id@);
            lemma_sizes_touched(self@.entries, id@);
        }
        match lru_get(&mut self.cache, id) {
            Some(b) => match b.file_modified {
                Some(t) => modified != t,
                None => true,
            },
            None => true,
        }
    }

    /// Replaces the cached bitmap of `id` by a fresh decoding of its file:
    /// the old one leaves the cache; the new one, when the file decoded to
    /// pixels of four bytes each, is cached as the most recent after room
    /// is made for it as for a registration (see `EmojiView::reloaded`).
    pub fn reload_with(
        &mut self,
        id: &str,
        file_path: String,
        decoded: Option<(u32, u32, Vec<u8>, Option<u128>)>,
    )
        requires
            old(self)@.wf(),
        ensures
            final(self)@.wf(),
            final(self)@ == old(self)@.reloaded(
                id@,
                file_path@,
                match decoded {
                    Some((w, h, data, modified)) => Some((w, h, data@, modified)),
                    None => None,
                },
            ),
    {
        proof {
            lemma_without_sound(self@.entries, self@.capacity, id@);
            lemma_sizes_without(self@.entries, id@);
        }
        match lru_pop(&mut self.cache, id) {
            Some(old_bitmap) => {
                self.total_bytes = self.total_bytes - old_bitmap.cached_size_bytes;
            },
            None => {},
        }
        match decoded {
            Some((w, h, data, modified)) => {
                assert(w * h <= 0xFFFF_FFFF * 0xFFFF_FFFF) by (nonlinear_arith);
                if data.len() as u128 == w as u128 * h as u128 * 4 {
                    let size = data.len() as u64;
                    if self.total_bytes as u128 + size as u128 > self.max_total_bytes as u128 {
                        self.evict_until(self.max_total_bytes.saturating_sub(size));
                    }
                    let bitmap = EmojiBitmap {
                        id: id.to_owned(),
                        width: w,
                        height: h,
                        rgba_data: data,
                        cached_size_bytes: size,
                        file_modified: modified,
                        file_path: Some(file_path),
                        register_method: RegisterMethod::File,
                    };
                    self.put_bitmap(id.to_owned(), bitmap);
                }
            },
            None => {},
        }
    }
}

/// A bitmap that registration accepts is then found under its id, with
/// its registry entry.
pub proof fn law_registered_emoji_is_found(v: EmojiView, b: BitmapView, info: RegView)
    requires
        v.wf(),
        v.registered(b, info).1,
        info.id == b.id,
        b.cached_size_bytes == b.rgba_data.len(),
    ensures
        v.registered(b, info).0.lookup(b.id) == Some(b),
        reg_lookup(v.registered(b, info).0.registry, b.id) == Some(info),
        v.registered(b, info).0.wf(),
{
    lemma_room_made(v, b.rgba_data.len() as u64);
    let v1 = v.with_room_for(b.rgba_data.len() as u64);
    lemma_put_sound(v1.entries, v1.capacity, b.id, b);
    lemma_put_last(v1.entries, v1.capacity, b.id, b);
    lemma_sizes_put(v1.entries, v1.capacity, b.id, b);
    lemma_reg_put_found(v.registry, info);
    lemma_reg_put_sound(v.registry, info);
}

/// The byte count of an accepted registration stays within the total
/// budget when the bitmap alone does; least recent entries are evicted for
/// it.
pub proof fn law_registration_keeps_budget(v: EmojiView, b: BitmapView, info: RegView)
    requires
        v.wf(),
        v.registered(b, info).1,
        b.cached_size_bytes == b.rgba_data.len(),
        v.total_bytes <= v.max_total_bytes,
        b.rgba_data.len() <= v.max_total_bytes,
    ensures
        v.registered(b, info).0.total_bytes <= v.max_total_bytes,
        v.registered(b, info).0.total_bytes == sizes(v.registered(b, info).0.entries),
{
    lemma_room_made(v, b.rgba_data.len() as u64);
    let v1 = v.with_room_for(b.rgba_data.len() as u64);
    lemma_sizes_put(v1.entries, v1.capacity, b.id, b);
}

/// Making room for `size` bytes keeps the manager sound and leaves at most
/// the budget less `size` (nothing, when `size` exceeds the budget), or
/// the manager unchanged when it fits already.
proof fn lemma_room_made(v: EmojiView, size: u64)
    requires
        v.wf(),
    ensures
        v.with_room_for(size).wf(),
        v.with_room_for(size).total_bytes + size <= if v.max_total_bytes >= size {
            v.max_total_bytes as int
        } else {
            size as int
        },
        v.total_bytes + size <= v.max_total_bytes ==> v.with_room_for(size) == v,
        v.with_room_for(size).capacity == v.capacity,
        v.with_room_for(size).registry == v.registry,
        v.with_room_for(size).max_total_bytes == v.max_total_bytes,
        v.with_room_for(size).max_bitmap_bytes == v.max_bitmap_bytes,
{
    if v.total_bytes + size > v.max_total_bytes {
        lemma_evicted(v.entries, v.capacity, sat_sub(v.max_total_bytes, size));
    }
}

/// A removed emoji is no longer cached nor registered.
pub proof fn law_removed_emoji_is_gone(v: EmojiView, id: Seq<char>)
    requires
        v.wf(),
    ensures
        (EmojiView { entries: without(v.entries, id), ..v }).lookup(id) is None,
        reg_lookup(reg_without(v.registry, id), id) is None,
{
    lemma_key_pos(v.entries, id);
    let p = key_pos(v.entries, id);
    let e2 = without(v.entries, id);
    if p < v.entries.len() {
        lemma_remove_sound(v.entries, v.capacity, p);
    }
    lemma_key_pos(e2, id);
    if key_pos(e2, id) < e2.len() {
        if p < v.entries.len() {
            assert(e2[key_pos(e2, id)].0 != v.entries[p].0);
        } else {
            assert(v.entries[key_pos(e2, id)].0 != id);
        }
    }
    lemma_reg_pos(v.registry, id);
    let q = reg_pos(v.registry, id);
    let r2 = reg_without(v.registry, id);
    lemma_reg_pos(r2, id);
    if reg_pos(r2, id) < r2.len() {
        let j = reg_pos(r2, id);
        if q < v.registry.len() {
            let a = if j < q { j } else { j + 1 };
            assert(r2[j] == v.registry[a]);
            assert(v.registry[a].id != v.registry[q].id);
        } else {
            assert(v.registry[j].id != id);
        }
    }
}

/// Eviction keeps the entries sound and leaves at most `target` bytes.
proof fn lemma_evicted(e: Seq<(Seq<char>, BitmapView)>, cap: nat, target: u64)
    requires
        lru_sound(e, cap),
    ensures
        lru_sound(evicted(e, target), cap),
        sizes(evicted(e, target)) <= target,
    decreases e.len(),
{
    if e.len() > 0 && sizes(e) > target {
        lemma_drop_first_sound(e, cap);
        lemma_evicted(e.drop_first(), cap, target);
    }
}

/// Appending an entry adds its size.
proof fn lemma_sizes_push(e: Seq<(Seq<char>, BitmapView)>, x: (Seq<char>, BitmapView))
    ensures
        sizes(e.push(x)) == sizes(e) + x.1.cached_size_bytes,
    decreases e.len(),
{
    if e.len() == 0 {
        assert(e.push(x).drop_first() =~= e);
    } else {
        assert(e.push(x).drop_first() =~= e.drop_first().push(x));
        lemma_sizes_push(e.drop_first(), x);
    }
}

/// Removing an entry takes away its size.
proof fn lemma_sizes_remove(e: Seq<(Seq<char>, BitmapView)>, p: int)
    requires
        0 <= p < e.len(),
    ensures
        sizes(e.remove(p)) + e[p].1.cached_size_bytes == sizes(e),
    decreases p,
{
    if p == 0 {
        assert(e.remove(0) =~= e.drop_first());
    } else {
        lemma_sizes_remove(e.drop_first(), p - 1);
        assert(e.remove(p).drop_first() =~= e.drop_first().remove(p - 1));
        assert(e.remove(p)[0] == e[0]);
    }
}

/// A lookup keeps the byte count of the entries.
proof fn lemma_sizes_touched(e: Seq<(Seq<char>, BitmapView)>, k: Seq<char>)
    ensures
        sizes(touched(e, k)) == sizes(e),
{
    lemma_key_pos(e, k);
    let p = key_pos(e, k);
    if p < e.len() {
        lemma_sizes_remove(e, p);
        lemma_sizes_push(e.remove(p), e[p]);
    }
}

/// Removing a key takes away the size of its entry.
proof fn lemma_sizes_without(e: Seq<(Seq<char>, BitmapView)>, k: Seq<char>)
    ensures
        key_pos(e, k) < e.len() ==> sizes(without(e, k)) + e[key_pos(e, k)].1.cached_size_bytes
            == sizes(e),
        key_pos(e, k) >= e.len() ==> without(e, k) == e,
{
    lemma_key_pos(e, k);
    if key_pos(e, k) < e.len() {
        lemma_sizes_remove(e, key_pos(e, k));
    }
}

/// A put takes away the size of the entry it replaces or drops and adds
/// that of the new one.
proof fn lemma_sizes_put(e: Seq<(Seq<char>, BitmapView)>, cap: nat, k: Seq<char>, b: BitmapView)
    requires
        lru_sound(e, cap),
        cap > 0,
    ensures
        sizes(put_into(e, cap, k, b)) + put_dropped(e, cap, k) == sizes(e) + b.cached_size_bytes,
        put_dropped(e, cap, k) <= sizes(e),
{
    lemma_key_pos(e, k);
    let p = key_pos(e, k);
    if p < e.len() {
        lemma_sizes_remove(e, p);
        lemma_sizes_push(e.remove(p), (k, b));
    } else if e.len() >= cap {
        lemma_sizes_push(e.drop_first(), (k, b));
    } else {
        lemma_sizes_push(e, (k, b));
    }
}

/// After a put into a cache of some capacity, the new entry is the last
/// one and the one found under its key.
pub(crate) proof fn lemma_put_last<V>(e: Seq<(Seq<char>, V)>, cap: nat, k: Seq<char>, b: V)
    requires
        lru_sound(e, cap),
        cap > 0,
    ensures
        ({
            let e2 = put_into(e, cap, k, b);
            &&& key_pos(e2, k) == e2.len() - 1
            &&& e2[e2.len() - 1] == (k, b)
        }),
{
    lemma_put_sound(e, cap, k, b);
    let e2 = put_into(e, cap, k, b);
    lemma_key_pos(e2, k);
    let p = key_pos(e2, k);
    let last = e2.len() - 1;
    assert(e2[last] == (k, b));
    if p < last {
        assert(e2[p].0 != e2[last].0);
    }
    if p == e2.len() {
        assert(e2[last].0 != k);
    }
}

/// After storing `info`, its id finds it.
proof fn lemma_reg_put_found(r: Seq<RegView>, info: RegView)
    requires
        reg_sound(r),
    ensures
        reg_lookup(reg_put(r, info), info.id) == Some(info),
{
    lemma_reg_pos(r, info.id);
    let r2 = reg_put(r, info);
    lemma_reg_pos(r2, info.id);
    let p = reg_pos(r, info.id);
    let q = reg_pos(r2, info.id);
    if p < r.len() {
        assert(r2[p] == info);
        if q < p {
            assert(r2[q] == r[q]);
        }
        if q > p {
            assert(r2[p].id != info.id);
        }
    } else {
        assert(r2[r.len() as int] == info);
        if q < r.len() {
            assert(r2[q] == r[q]);
        }
        if q == r2.len() {
            assert(r2[r.len() as int].id != info.id);
        }
    }
}

/// Storing keeps the registry ids distinct.
proof fn lemma_reg_put_sound(r: Seq<RegView>, info: RegView)
    requires
        reg_sound(r),
    ensures
        reg_sound(reg_put(r, info)),
{
    lemma_reg_pos(r, info.id);
    let p = reg_pos(r, info.id);
    let r2 = reg_put(r, info);
    assert forall|i: int, j: int| 0 <= i < j < r2.len() implies #[trigger] r2[i].id != #[trigger] r2[j].id by {
        if p < r.len() {
            if i == p {
                assert(r[j].id != r[p].id);
            } else if j == p {
                assert(r[i].id != r[p].id);
            } else {
                assert(r[i].id != r[j].id);
            }
        } else {
            if j == r.len() {
                assert(r[i].id != info.id);
            } else {
                assert(r[i].id != r[j].id);
            }
        }
    }
}

/// Facts about the position of a key.
pub(crate) proof fn lemma_key_pos<V>(e: Seq<(Seq<char>, V)>, k: Seq<char>)
    ensures
        0 <= key_pos(e, k) <= e.len(),
        key_pos(e, k) < e.len() ==> e[key_pos(e, k)].0 == k,
        forall|i: int| 0 <= i < key_pos(e, k) ==> #[trigger] e[i].0 != k,
    decreases e.len(),
{
    if e.len() > 0 && e[0].0 != k {
        lemma_key_pos(e.drop_first(), k);
        assert forall|i: int| 0 <= i < key_pos(e, k) implies #[trigger] e[i].0 != k by {
            if i > 0 {
                assert(e[i] == e.drop_first()[i - 1]);
            }
        }
    }
}

/// Facts about the position of a registry id.
proof fn lemma_reg_pos(r: Seq<RegView>, id: Seq<char>)
    ensures
        0 <= reg_pos(r, id) <= r.len(),
        reg_pos(r, id) < r.len() ==> r[reg_pos(r, id)].id == id,
        forall|i: int| 0 <= i < reg_pos(r, id) ==> #[trigger] r[i].id != id,
    decreases r.len(),
{
    if r.len() > 0 && r[0].id != id {
        lemma_reg_pos(r.drop_first(), id);
        assert forall|i: int| 0 <= i < reg_pos(r, id) implies #[trigger] r[i].id != id by {
            if i > 0 {
                assert(r[i] == r.drop_first()[i - 1]);
            }
        }
    }
}

/// Dropping the least recent entry keeps the entries sound.
pub(crate) proof fn lemma_drop_first_sound<V>(e: Seq<(Seq<char>, V)>, cap: nat)
    requires
        lru_sound(e, cap),
        e.len() > 0,
    ensures
        lru_sound(e.drop_first(), cap),
{
    assert forall|i: int, j: int| 0 <= i < j < e.drop_first().len() implies #[trigger] e.drop_first()[i].0
        != #[trigger] e.drop_first()[j].0 by {
        assert(e.drop_first()[i] == e[i + 1]);
        assert(e.drop_first()[j] == e[j + 1]);
    }
}

/// Removing an entry keeps the entries sound.
pub(crate) proof fn lemma_remove_sound<V>(e: Seq<(Seq<char>, V)>, cap: nat, p: int)
    requires
        lru_sound(e, cap),
        0 <= p < e.len(),
    ensures
        lru_sound(e.remove(p), cap),
        forall|i: int| 0 <= i < e.remove(p).len() ==> #[trigger] e.remove(p)[i].0 != e[p].0,
{
    let r = e.remove(p);
    assert forall|i: int, j: int| 0 <= i < j < r.len() implies #[trigger] r[i].0 != #[trigger] r[j].0 by {
        let a = if i < p { i } else { i + 1 };
        let b = if j < p { j } else { j + 1 };
        assert(r[i] == e[a]);
        assert(r[j] == e[b]);
    }
    assert forall|i: int| 0 <= i < r.len() implies #[trigger] r[i].0 != e[p].0 by {
        let a = if i < p { i } else { i + 1 };
        assert(r[i] == e[a]);
    }
}

/// Putting keeps the entries sound.
pub(crate) proof fn lemma_put_sound<V>(e: Seq<(Seq<char>, V)>, cap: nat, k: Seq<char>, b: V)
    requires
        lru_sound(e, cap),
    ensures
        lru_sound(put_into(e, cap, k, b), cap),
{
    lemma_key_pos(e, k);
    let p = key_pos(e, k);
    if p < e.len() {
        lemma_remove_sound(e, cap, p);
        let r = e.remove(p);
        assert forall|i: int, j: int| 0 <= i < j < r.push((k, b)).len() implies #[trigger] r.push(
            (k, b),
        )[i].0 != #[trigger] r.push((k, b))[j].0 by {
            if j == r.len() {
                assert(r[i].0 != e[p].0);
            } else {
                assert(r[i].0 != r[j].0);
            }
        }
    } else if cap == 0 {
    } else if e.len() >= cap {
        lemma_drop_first_sound(e, cap);
        let r = e.drop_first();
        assert forall|i: int, j: int| 0 <= i < j < r.push((k, b)).len() implies #[trigger] r.push(
            (k, b),
        )[i].0 != #[trigger] r.push((k, b))[j].0 by {
            if j == r.len() {
                assert(r[i] == e[i + 1]);
            } else {
                assert(r[i].0 != r[j].0);
            }
        }
    } else {
        assert forall|i: int, j: int| 0 <= i < j < e.push((k, b)).len() implies #[trigger] e.push(
            (k, b),
        )[i].0 != #[trigger] e.push((k, b))[j].0 by {
            if j == e.len() {
                assert(e[i].0 != k);
            } else {
                assert(e[i].0 != e[j].0);
            }
        }
    }
}

/// A lookup keeps the entries sound.
pub(crate) proof fn lemma_touched_sound<V>(e: Seq<(Seq<char>, V)>, cap: nat, k: Seq<char>)
    requires
        lru_sound(e, cap),
    ensures
        lru_sound(touched(e, k), cap),
{
    lemma_key_pos(e, k);
    let p = key_pos(e, k);
    if p < e.len() {
        lemma_remove_sound(e, cap, p);
        let r = e.remove(p);
        assert forall|i: int, j: int| 0 <= i < j < r.push(e[p]).len() implies #[trigger] r.push(
            e[p],
        )[i].0 != #[trigger] r.push(e[p])[j].0 by {
            if j == r.len() {
                assert(r[i].0 != e[p].0);
            } else {
                assert(r[i].0 != r[j].0);
            }
        }
    }
}

/// Removing a key keeps the entries sound.
pub(crate) proof fn lemma_without_sound<V>(e: Seq<(Seq<char>, V)>, cap: nat, k: Seq<char>)
    requires
        lru_sound(e, cap),
    ensures
        lru_sound(without(e, k), cap),
{
    lemma_key_pos(e, k);
    if key_pos(e, k) < e.len() {
        lemma_remove_sound(e, cap, key_pos(e, k));
    }
}

} // verus!
