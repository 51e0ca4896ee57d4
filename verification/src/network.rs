//! Download support: URL checks, the retry policy of image downloads, the
//! in-memory cache of downloaded bytes (an LRU cache whose entries expire),
//! and the disk cache file of a URL (a hash of the URL in hexadecimal and
//! the URL's file extension).
use vstd::prelude::*;

use std::hash::BuildHasher;

use lru::LruCache;

use crate::clock::whole_secs;
use crate::emoji::{
    key_pos, lemma_key_pos, lemma_put_last, lemma_put_sound, lemma_touched_sound, lru_sound, put_into,
    touched,
};
use crate::math::min;
use crate::text::chars_of;
use crate::utils::{since_unix_epoch, system_now};

verus! {

/// Notifications of a download.
#[derive(Debug, Clone, Copy, PartialEq, Eq, Structural)]
pub enum DownloadEvent {
    Start,
    Success,
    Fail,
}

/// Settings of a download.
#[derive(Debug, Clone)]
pub struct DownloadOptions {
    pub connect_timeout_secs: u64,
    pub read_timeout_secs: u64,
    /// Attempts to make, bounded to 1..=3.
    pub max_retries: u32,
    pub user_agent: String,
}

impl Default for DownloadOptions {
    fn default() -> (r: Self)
        ensures
            r.connect_timeout_secs == 10,
            r.read_timeout_secs == 30,
            r.max_retries == 3,
    {
        DownloadOptions {
            connect_timeout_secs: 10,
            read_timeout_secs: 30,
            max_retries: 3,
            user_agent: "rs-barrage-engine/0.1".to_owned(),
        }
    }
}

/// What one download attempt gave.
#[derive(Debug, Clone, Copy, PartialEq, Eq, Structural)]
pub enum AttemptResult {
    /// A response body of the given length was read.
    Fetched(usize),
    /// The request failed, or its body could not be read.
    Failed,
}

/// What to do after an attempt.
#[derive(Debug, Clone, Copy, PartialEq, Eq, Structural)]
pub enum DownloadStep {
    /// Keep the body.
    Succeed,
    /// Try again after waiting the given milliseconds.
    Retry(u64),
    /// Report the failure.
    GiveUp,
}

/// The hash `DefaultHasher` gives a string.
pub uninterp spec fn std_hash(s: Seq<char>) -> u64;

/// Position of the last `c` in `s`, or -1.
pub open spec fn last_index_of(s: Seq<char>, c: char) -> int
    decreases s.len(),
{
    if s.len() == 0 {
        -1
    } else if s.last() == c {
        s.len() - 1
    } else {
        last_index_of(s.drop_last(), c)
    }
}

/// The part of `s` after its last `c` (all of `s` without one).
pub open spec fn after_last(s: Seq<char>, c: char) -> Seq<char> {
    s.subrange(last_index_of(s, c) + 1, s.len() as int)
}

/// Number of bytes of the UTF-8 encoding of `c`.
pub open spec fn utf8_width(c: char) -> nat {
    let u = c as u32;
    if u < 0x80 {
        1
    } else if u < 0x800 {
        2
    } else if u < 0x10000 {
        3
    } else {
        4
    }
}

/// Number of bytes of the UTF-8 encoding of `s`.
pub open spec fn utf8_len(s: Seq<char>) -> nat
    decreases s.len(),
{
    if s.len() == 0 {
        0
    } else {
        utf8_len(s.drop_last()) + utf8_width(s.last())
    }
}

/// The file extension of a URL: what follows the last `.` of its last
/// `/`-separated segment, when the segment has a `.` and that part is at
/// most five bytes long; else `png`.
pub open spec fn extension_of(url: Seq<char>) -> Seq<char> {
    let seg = after_last(url, '/');
    let ext = after_last(seg, '.');
    if last_index_of(seg, '.') >= 0 && utf8_len(ext) <= 5 {
        ext
    } else {
        seq!['p', 'n', 'g']
    }
}

/// The lower-case hexadecimal digit of `d` (below 16).
pub open spec fn hex_digit(d: nat) -> char {
    if d < 10 {
        (('0' as u32) + d) as char
    } else {
        (('a' as u32) + d - 10) as char
    }
}

/// `n` in lower-case hexadecimal, without leading zeros.
pub open spec fn hex_of(n: nat) -> Seq<char>
    decreases n,
{
    if n < 16 {
        seq![hex_digit(n)]
    } else {
        hex_of(n / 16).push(hex_digit(n % 16))
    }
}

/// The cache file name of a URL: its hash in hexadecimal, a dot, its
/// extension.
pub open spec fn cache_file_name(url: Seq<char>) -> Seq<char> {
    hex_of(std_hash(url) as nat) + seq!['.'] + extension_of(url)
}

/// `file` inside directory `dir`, with `/` as separator.
pub open spec fn joined(dir: Seq<char>, file: Seq<char>) -> Seq<char> {
    if dir.len() == 0 {
        file
    } else if dir.last() == '/' {
        dir + file
    } else {
        dir + seq!['/'] + file
    }
}

/// Attempts a download makes: `max_retries` bounded to 1..=3.
pub open spec fn attempts(max_retries: u32) -> u32 {
    if max_retries < 1 {
        1
    } else if max_retries > 3 {
        3
    } else {
        max_retries
    }
}

/// The step after attempt `attempt` (from 0) of `total`: a non-empty body
/// succeeds; otherwise another attempt follows while any is left, at once
/// after an empty body and after `500 * (attempt + 1)` ms after a failure.
pub open spec fn step_after(attempt: u32, total: u32, result: AttemptResult) -> DownloadStep {
    match result {
        AttemptResult::Fetched(n) => if n > 0 {
            DownloadStep::Succeed
        } else if attempt + 1 < total {
            DownloadStep::Retry(0)
        } else {
            DownloadStep::GiveUp
        },
        AttemptResult::Failed => if attempt + 1 < total {
            DownloadStep::Retry((500 * (attempt + 1)) as u64)
        } else {
            DownloadStep::GiveUp
        },
    }
}

/// Calls `BuildHasher::hash_one` on a default-built `DefaultHasher`: the
/// hash that `DefaultHasher::new`, `Hash::hash` and `Hasher::finish` give.
#[verifier::external_body]
fn hash_str(s: &str) -> (r: u64)
    ensures
        r == std_hash(s@),
{
    std::hash::BuildHasherDefault::<std::collections::hash_map::DefaultHasher>::default().hash_one(s)
}

/// Calls `Iterator::collect` into a `String`: the string of the given
/// characters.
#[verifier::external_body]
fn string_of(cs: &[char]) -> (r: String)
    ensures
        r@ == cs@,
{
    cs.iter().collect()
}

/// Formats the message of an unsupported URL scheme.
#[verifier::external_body]
pub(crate) fn unsupported_scheme_message(url: &str) -> (r: String) {
    format!("不支持的 URL 协议: {}", url)
}

/// Position of the last `c` in `s`, or `s.len()` when there is none.
fn find_last(s: &Vec<char>, c: char) -> (r: usize)
    ensures
        r == (if last_index_of(s@, c) < 0 {
            s@.len() as int
        } else {
            last_index_of(s@, c)
        }),
{
    let mut i: usize = s.len();
    assert(s@.subrange(0, i as int) =~= s@);
    while i > 0
        invariant
            0 <= i <= s@.len(),
            last_index_of(s@, c) == last_index_of(s@.subrange(0, i as int), c),
        decreases i,
    {
        if s[i - 1] == c {
            assert(s@.subrange(0, i as int).last() == c);
            return i - 1;
        }
        assert(s@.subrange(0, i as int).drop_last() =~= s@.subrange(0, i - 1));
        i = i - 1;
    }
    s.len()
}

/// Bytes of the UTF-8 encoding of `s`.
fn utf8_length(s: &Vec<char>) -> (r: u128)
    ensures
        r == utf8_len(s@),
{
    let n = s.len();
    let mut total: u128 = 0;
    let mut i: usize = 0;
    while i < n
        invariant
            0 <= i <= n,
            n == s@.len(),
            total == utf8_len(s@.subrange(0, i as int)),
            total <= 4 * i,
        decreases n - i,
    {
        let u = s[i] as u32;
        let w: u128 = if u < 0x80 {
            1
        } else if u < 0x800 {
            2
        } else if u < 0x10000 {
            3
        } else {
            4
        };
        assert(s@.subrange(0, i + 1).drop_last() =~= s@.subrange(0, i as int));
        total = total + w;
        i = i + 1;
    }
    assert(s@.subrange(0, n as int) =~= s@);
    total
}

/// The file extension of `url` (`png` when it has none of at most five
/// bytes).
pub fn url_extension(url: &str) -> (r: &str)
    ensures
        r@ == extension_of(url@),
{
    let cs = chars_of(url);
    let n = cs.len();
    let slash = find_last(&cs, '/');
    proof {
        lemma_last_index(url@, '/');
    }
    let start: usize = if slash < n {
        slash + 1
    } else {
        0
    };
    let seg = url.substring_char(start, n);
    assert(seg@ =~= after_last(url@, '/'));
    let seg_cs = chars_of(seg);
    let m = seg_cs.len();
    let dot = find_last(&seg_cs, '.');
    proof {
        lemma_last_index(seg@, '.');
    }
    if dot < m {
        let ext = seg.substring_char(dot + 1, m);
        assert(ext@ =~= after_last(seg@, '.'));
        let ext_cs = chars_of(ext);
        if utf8_length(&ext_cs) <= 5 {
            return ext;
        }
    }
    let png = "png";
    proof {
        reveal_strlit("png");
    }
    assert(png@ =~= seq!['p', 'n', 'g']);
    png
}

/// `n` in lower-case hexadecimal.
pub fn to_hex(n: u64) -> (r: Vec<char>)
    ensures
        r@ == hex_of(n as nat),
    decreases n,
{
    let d = (n % 16) as u32;
    let c: char = if d < 10 {
        char_of_digit(('0' as u32) + d)
    } else {
        char_of_digit(('a' as u32) + d - 10)
    };
    if n < 16 {
        let mut r: Vec<char> = Vec::new();
        r.push(c);
        assert(r@ =~= seq![hex_digit(n as nat)]);
        r
    } else {
        let mut r = to_hex(n / 16);
        r.push(c);
        r
    }
}

/// The character of an ASCII digit or letter code.
fn char_of_digit(code: u32) -> (r: char)
    requires
        0x30 <= code <= 0x39 || 0x61 <= code <= 0x66,
    ensures
        r == code as char,
{
    if code < 0x3a {
        let b = code as u8;
        b as char
    } else {
        let b = code as u8;
        b as char
    }
}

/// The hash of `s` in lower-case hexadecimal.
pub fn simple_hash(s: &str) -> (r: String)
    ensures
        r@ == hex_of(std_hash(s@) as nat),
{
    let digits = to_hex(hash_str(s));
    string_of(digits.as_slice())
}

/// The disk cache file of `url` inside `cache_dir`.
pub fn cache_path_from_url(cache_dir: &str, url: &str) -> (r: String)
    ensures
        r@ == joined(cache_dir@, cache_file_name(url@)),
{
    let mut cs = chars_of(cache_dir);
    let n = cs.len();
    if n > 0 && cs[n - 1] != '/' {
        cs.push('/');
    }
    let hex = to_hex(hash_str(url));
    let ext = chars_of(url_extension(url));
    let ghost base = cs@;
    let mut i: usize = 0;
    while i < hex.len()
        invariant
            0 <= i <= hex@.len(),
            cs@ == base + hex@.subrange(0, i as int),
        decreases hex@.len() - i,
    {
        cs.push(hex[i]);
        i = i + 1;
        assert(cs@ =~= base + hex@.subrange(0, i as int));
    }
    cs.push('.');
    let ghost base2 = cs@;
    let mut j: usize = 0;
    while j < ext.len()
        invariant
            0 <= j <= ext@.len(),
            cs@ == base2 + ext@.subrange(0, j as int),
        decreases ext@.len() - j,
    {
        cs.push(ext[j]);
        j = j + 1;
        assert(cs@ =~= base2 + ext@.subrange(0, j as int));
    }
    proof {
        assert(hex@.subrange(0, hex@.len() as int) =~= hex@);
        assert(ext@.subrange(0, ext@.len() as int) =~= ext@);
        let file = cache_file_name(url@);
        if cache_dir@.len() == 0 {
            assert(cs@ =~= file);
        } else if cache_dir@.last() == '/' {
            assert(cs@ =~= cache_dir@ + file);
        } else {
            assert(cs@ =~= cache_dir@ + seq!['/'] + file);
        }
    }
    string_of(cs.as_slice())
}

/// The wall clock in whole seconds since the Unix epoch; 0 for a clock set
/// before the epoch.
pub fn current_time_secs() -> (r: u64) {
    let now = system_now();
    match since_unix_epoch(&now) {
        Ok(d) => whole_secs(&d),
        Err(_) => 0,
    }
}

/// Checks a disk cache directory: its path must not hold a NUL character.
pub fn check_cache_dir(dir: &str) -> (r: Result<(), String>)
    ensures
        r is Err <==> dir@.contains('\0'),
{
    let cs = chars_of(dir);
    let n = cs.len();
    let mut i: usize = 0;
    while i < n
        invariant
            0 <= i <= n,
            n == cs@.len(),
            cs@ == dir@,
            forall|k: int| 0 <= k < i ==> cs@[k] != '\0',
        decreases n - i,
    {
        if cs[i] == '\0' {
            return Err("缓存目录路径包含 null 字符".to_owned());
        }
        i = i + 1;
    }
    Ok(())
}

/// Checks a download URL: the scheme must be http or https and the URL at
/// most 2048 bytes long.
pub fn check_download_url(url: &str) -> (r: Result<(), String>)
    ensures
        r is Ok <==> (starts_with_http(url@) && url.len() <= 2048),
{
    let cs = chars_of(url);
    let http: Vec<char> = vec!['h', 't', 't', 'p', ':', '/', '/'];
    let https: Vec<char> = vec!['h', 't', 't', 'p', 's', ':', '/', '/'];
    assert(http@ =~= seq!['h', 't', 't', 'p', ':', '/', '/']);
    assert(https@ =~= seq!['h', 't', 't', 'p', 's', ':', '/', '/']);
    if !prefixed(&cs, &http) && !prefixed(&cs, &https) {
        return Err(unsupported_scheme_message(url));
    }
    if url.len() > 2048 {
        return Err("URL 过长（超过 2048 字符）".to_owned());
    }
    Ok(())
}

/// Whether a URL starts with `http://` or `https://`.
pub open spec fn starts_with_http(url: Seq<char>) -> bool {
    ||| crate::emoji::starts_with(url, seq!['h', 't', 't', 'p', ':', '/', '/'])
    ||| crate::emoji::starts_with(url, seq!['h', 't', 't', 'p', 's', ':', '/', '/'])
}

/// Whether `s` starts with `p`.
pub(crate) fn prefixed(s: &Vec<char>, p: &Vec<char>) -> (r: bool)
    ensures
        r == crate::emoji::starts_with(s@, p@),
{
    if p.len() > s.len() {
        return false;
    }
    let n = p.len();
    let mut i: usize = 0;
    while i < n
        invariant
            0 <= i <= n,
            n == p@.len(),
            n <= s@.len(),
            s@.subrange(0, i as int) =~= p@.subrange(0, i as int),
        decreases n - i,
    {
        if s[i] != p[i] {
            assert(s@.subrange(0, n as int)[i as int] != p@[i as int]);
            return false;
        }
        i = i + 1;
        assert(s@.subrange(0, i as int) =~= p@.subrange(0, i as int));
    }
    assert(p@.subrange(0, n as int) =~= p@);
    true
}

/// Attempts a download makes.
pub fn download_attempts(options: &DownloadOptions) -> (r: u32)
    ensures
        r == attempts(options.max_retries),
{
    if options.max_retries < 1 {
        1
    } else if options.max_retries > 3 {
        3
    } else {
        options.max_retries
    }
}

/// The step after attempt `attempt` (from 0) of `total`.
pub fn next_download_step(attempt: u32, total: u32, result: AttemptResult) -> (r: DownloadStep)
    requires
        total <= 3,
    ensures
        r == step_after(attempt, total, result),
{
    match result {
        AttemptResult::Fetched(n) => {
            if n > 0 {
                DownloadStep::Succeed
            } else if (attempt as u64) + 1 < total as u64 {
                DownloadStep::Retry(0)
            } else {
                DownloadStep::GiveUp
            }
        },
        AttemptResult::Failed => {
            if (attempt as u64) + 1 < total as u64 {
                DownloadStep::Retry(500 * (attempt as u64 + 1))
            } else {
                DownloadStep::GiveUp
            }
        },
    }
}

/// The entries of a download cache, least recently used first: the URL,
/// the time its bytes were stored (seconds since the Unix epoch) and the
/// bytes.
pub uninterp spec fn net_contents(c: LruCache<String, (u64, Vec<u8>)>) -> Seq<
    (Seq<char>, (u64, Seq<u8>)),
>;

/// The capacity a download cache was made with.
pub uninterp spec fn net_capacity(c: LruCache<String, (u64, Vec<u8>)>) -> nat;

/// Calls `LruCache::new`: an empty cache holding at most `cap` entries.
#[verifier::external_body]
fn net_lru_new(cap: usize) -> (r: LruCache<String, (u64, Vec<u8>)>)
    ensures
        net_contents(r) == Seq::<(Seq<char>, (u64, Seq<u8>))>::empty(),
        net_capacity(r) == cap,
{
    LruCache::new(cap)
}

/// Calls `LruCache::put`: stores `v` under `k` as the most recent entry; a
/// new key evicts the least recent entry of a full cache.
#[verifier::external_body]
fn net_lru_put(c: &mut LruCache<String, (u64, Vec<u8>)>, k: String, v: (u64, Vec<u8>))
    requires
        lru_sound(net_contents(*old(c)), net_capacity(*old(c))),
    ensures
        net_capacity(*final(c)) == net_capacity(*old(c)),
        net_contents(*final(c)) == put_into(
            net_contents(*old(c)),
            net_capacity(*old(c)),
            k@,
            (v.0, v.1@),
        ),
{
    c.put(k, v);
}

/// Calls `LruCache::get` and copies the entry found, which becomes the most
/// recent.
#[verifier::external_body]
fn net_lru_get(c: &mut LruCache<String, (u64, Vec<u8>)>, k: &str) -> (r: Option<(u64, Vec<u8>)>)
    requires
        lru_sound(net_contents(*old(c)), net_capacity(*old(c))),
    ensures
        net_capacity(*final(c)) == net_capacity(*old(c)),
        net_contents(*final(c)) == touched(net_contents(*old(c)), k@),
        ({
            let e = net_contents(*old(c));
            let p = key_pos(e, k@);
            match r {
                Some(v) => p < e.len() && (v.0, v.1@) == e[p].1,
                None => p >= e.len(),
            }
        }),
{
    c.get(k).cloned()
}

/// Calls `LruCache::pop`: removes the entry of `k`.
#[verifier::external_body]
fn net_lru_pop(c: &mut LruCache<String, (u64, Vec<u8>)>, k: &str)
    ensures
        net_capacity(*final(c)) == net_capacity(*old(c)),
        net_contents(*final(c)) == crate::emoji::without(net_contents(*old(c)), k@),
{
    c.pop(k);
}

/// Calls `LruCache::clear`: removes every entry.
#[verifier::external_body]
fn net_lru_clear(c: &mut LruCache<String, (u64, Vec<u8>)>)
    ensures
        net_capacity(*final(c)) == net_capacity(*old(c)),
        net_contents(*final(c)) == Seq::<(Seq<char>, (u64, Seq<u8>))>::empty(),
{
    c.clear()
}

/// Calls `LruCache::iter`, which walks the entries from the most recent to
/// the least recent, and gives each as its URL, time and byte count.
#[verifier::external_body]
fn net_lru_summary(c: &LruCache<String, (u64, Vec<u8>)>) -> (r: Vec<(String, u64, usize)>)
    ensures
        r@.len() == net_contents(*c).len(),
        forall|i: int|
            #![trigger r@[i]]
            0 <= i < r@.len() ==> {
                let e = net_contents(*c)[net_contents(*c).len() - 1 - i];
                r@[i].0@ == e.0 && r@[i].1 == e.1.0 && r@[i].2 == e.1.1.len()
            },
{
    c.iter().map(|(k, v)| (k.clone(), v.0, v.1.len())).collect()
}

/// Whether bytes stored at `stored` are still valid at `now` for a
/// lifetime of `ttl` seconds (a clock that went back counts as no time).
pub open spec fn still_fresh(now: u64, stored: u64, ttl: u64) -> bool {
    (if now >= stored {
        now - stored
    } else {
        0
    }) < ttl
}

/// Whether bytes stored at `stored` are still valid at `now` for a
/// lifetime of `ttl` seconds.
pub fn is_fresh(now: u64, stored: u64, ttl: u64) -> (r: bool)
    ensures
        r == still_fresh(now, stored, ttl),
{
    now.saturating_sub(stored) < ttl
}

/// The entries that are still valid at `now`, in order.
pub open spec fn fresh_entries(e: Seq<(Seq<char>, (u64, Seq<u8>))>, now: u64, ttl: u64) -> Seq<
    (Seq<char>, (u64, Seq<u8>)),
>
    decreases e.len(),
{
    if e.len() == 0 {
        e
    } else if still_fresh(now, e[0].1.0, ttl) {
        seq![e[0]] + fresh_entries(e.drop_first(), now, ttl)
    } else {
        fresh_entries(e.drop_first(), now, ttl)
    }
}

/// The bytes cached for `url` that are still valid at `now`.
pub open spec fn cached_bytes(e: Seq<(Seq<char>, (u64, Seq<u8>))>, url: Seq<char>, now: u64, ttl: u64) -> Option<
    Seq<u8>,
> {
    let p = key_pos(e, url);
    if p < e.len() && still_fresh(now, e[p].1.0, ttl) {
        Some(e[p].1.1)
    } else {
        None
    }
}

/// The bytes an optional buffer holds.
pub open spec fn bytes_of(r: Option<Vec<u8>>) -> Option<Seq<u8>> {
    match r {
        Some(d) => Some(d@),
        None => None,
    }
}

/// Total number of bytes of the entries.
pub open spec fn total_len(e: Seq<(Seq<char>, (u64, Seq<u8>))>) -> nat
    decreases e.len(),
{
    if e.len() == 0 {
        0
    } else {
        total_len(e.drop_last()) + e.last().1.1.len()
    }
}

/// The abstract state of a download cache.
pub struct NetCacheView {
    pub entries: Seq<(Seq<char>, (u64, Seq<u8>))>,
    pub capacity: nat,
    pub ttl_secs: u64,
}

impl NetCacheView {
    /// Distinct URLs within the capacity.
    pub open spec fn wf(self) -> bool {
        lru_sound(self.entries, self.capacity)
    }
}

/// The in-memory cache of downloaded bytes: an LRU cache of URL to the
/// time the bytes were stored and the bytes, whose entries are valid for a
/// fixed number of seconds.
pub struct NetworkCache {
    memory: LruCache<String, (u64, Vec<u8>)>,
    ttl_secs: u64,
}

impl View for NetworkCache {
    type V = NetCacheView;

    closed spec fn view(&self) -> NetCacheView {
        NetCacheView {
            entries: net_contents(self.memory),
            capacity: net_capacity(self.memory),
            ttl_secs: self.ttl_secs,
        }
    }
}

impl NetworkCache {
    /// An empty cache of at most `capacity` entries, each valid `ttl_secs`
    /// seconds.
    pub fn new(capacity: usize, ttl_secs: u64) -> (r: Self)
        ensures
            r@.wf(),
            r@.entries.len() == 0,
            r@.capacity == capacity,
            r@.ttl_secs == ttl_secs,
    {
        NetworkCache { memory: net_lru_new(capacity), ttl_secs }
    }

    /// The bytes of `url` if they are still valid at `now`; a URL found
    /// becomes the most recent, valid or not.
    pub fn lookup(&mut self, url: &str, now: u64) -> (r: Option<Vec<u8>>)
        requires
            old(self)@.wf(),
        ensures
            final(self)@.wf(),
            final(self)@ == (NetCacheView { entries: touched(old(self)@.entries, url@), ..old(self)@ }),
            bytes_of(r) == cached_bytes(old(self)@.entries, url@, now, old(self)@.ttl_secs),
    {
        proof {
            lemma_touched_sound(self@.entries, self@.capacity, url@);
        }
        match net_lru_get(&mut self.memory, url) {
            Some((time, data)) => {
                if is_fresh(now, time, self.ttl_secs) {
                    Some(data)
                } else {
                    None
                }
            },
            None => None,
        }
    }

    /// The bytes of `url` if they are still valid now (see `lookup`).
    pub fn get(&mut self, url: &str) -> (r: Option<Vec<u8>>)
        requires
            old(self)@.wf(),
        ensures
            final(self)@.wf(),
            final(self)@ == (NetCacheView { entries: touched(old(self)@.entries, url@), ..old(self)@ }),
            ({
                let e = old(self)@.entries;
                let p = key_pos(e, url@);
                r matches Some(d) ==> p < e.len() && d@ == e[p].1.1
            }),
    {
        let now = current_time_secs();
        self.lookup(url, now)
    }

    /// Stores `data` for `url` as stored at `now`, as the most recent entry.
    pub fn store(&mut self, url: &str, data: Vec<u8>, now: u64)
        requires
            old(self)@.wf(),
        ensures
            final(self)@.wf(),
            final(self)@ == (NetCacheView {
                entries: put_into(old(self)@.entries, old(self)@.capacity, url@, (now, data@)),
                ..old(self)@
            }),
    {
        proof {
            lemma_put_sound(self@.entries, self@.capacity, url@, (now, data@));
        }
        net_lru_put(&mut self.memory, url.to_owned(), (now, data));
    }

    /// Stores `data` for `url` as stored now (see `store`).
    pub fn put(&mut self, url: &str, data: Vec<u8>)
        requires
            old(self)@.wf(),
        ensures
            final(self)@.wf(),
            exists|now: u64|
                final(self)@ == (NetCacheView {
                    entries: #[trigger] put_into(old(self)@.entries, old(self)@.capacity, url@, (now, data@)),
                    ..old(self)@
                }),
    {
        let now = current_time_secs();
        self.store(url, data, now);
    }

    /// Removes every entry.
    pub fn clear(&mut self)
        ensures
            final(self)@ == (NetCacheView { entries: Seq::empty(), ..old(self)@ }),
            final(self)@.wf(),
    {
        net_lru_clear(&mut self.memory);
    }

    /// Total number of bytes stored, at most `u64::MAX`.
    pub fn size(&self) -> (r: u64)
        ensures
            r == min(total_len(self@.entries) as int, u64::MAX as int),
    {
        let summary = net_lru_summary(&self.memory);
        let ghost e = self@.entries;
        let n = summary.len();
        let mut total: u64 = 0;
        let mut i: usize = 0;
        while i < n
            invariant
                0 <= i <= n,
                n == summary@.len(),
                n == e.len(),
                e == self@.entries,
                forall|j: int|
                    #![trigger summary@[j]]
                    0 <= j < summary@.len() ==> {
                        let x = e[e.len() - 1 - j];
                        summary@[j].0@ == x.0 && summary@[j].1 == x.1.0 && summary@[j].2 == x.1.1.len()
                    },
                total == min(total_len(e.subrange(n - i, n as int)) as int, u64::MAX as int),
            decreases n - i,
        {
            let len = summary[i].2;
            proof {
                lemma_total_len_front(e.subrange(n - i - 1, n as int));
                assert(e.subrange(n - i - 1, n as int).drop_first() =~= e.subrange(n - i, n as int));
                assert(e.subrange(n - i - 1, n as int)[0] == e[n - 1 - i]);
            }
            total = total.saturating_add(len as u64);
            i = i + 1;
        }
        assert(e.subrange(0, n as int) =~= e);
        total
    }

    /// Removes, at `now`, every entry that is no longer valid; the others
    /// keep their order.
    pub fn clean_expired_at(&mut self, now: u64)
        requires
            old(self)@.wf(),
        ensures
            final(self)@.wf(),
            final(self)@ == (NetCacheView {
                entries: fresh_entries(old(self)@.entries, now, old(self)@.ttl_secs),
                ..old(self)@
            }),
    {
        let summary = net_lru_summary(&self.memory);
        let ghost e = self@.entries;
        let n = summary.len();
        let mut i: usize = 0;
        assert(e.skip(n as int) =~= Seq::<(Seq<char>, (u64, Seq<u8>))>::empty());
        assert(e.take(n as int) =~= e);
        while i < n
            invariant
                0 <= i <= n,
                n == summary@.len(),
                n == e.len(),
                e == old(self)@.entries,
                lru_sound(e, old(self)@.capacity),
                self@.capacity == old(self)@.capacity,
                self@.ttl_secs == old(self)@.ttl_secs,
                forall|j: int|
                    #![trigger summary@[j]]
                    0 <= j < summary@.len() ==> {
                        let x = e[e.len() - 1 - j];
                        summary@[j].0@ == x.0 && summary@[j].1 == x.1.0 && summary@[j].2 == x.1.1.len()
                    },
                self@.entries == e.take(n - i) + fresh_entries(e.skip(n - i), now, self@.ttl_secs),
            decreases n - i,
        {
            let m: usize = n - i;
            proof {
                assert(e.skip(m - 1).drop_first() =~= e.skip(m as int));
                assert(e.skip(m - 1)[0] == e[m - 1]);
                assert(summary@[i as int].0@ == e[m - 1].0);
            }
            let ghost ttl = self@.ttl_secs;
            let ghost rest = fresh_entries(e.skip(m as int), now, ttl);
            let ghost cur = self@.entries;
            proof {
                assert(e.take(m as int) =~= e.take(m - 1).push(e[m - 1]));
                assert(cur =~= e.take(m - 1) + seq![e[m - 1]] + rest);
            }
            if !is_fresh(now, summary[i].1, self.ttl_secs) {
                proof {
                    assert(!still_fresh(now, e[m - 1].1.0, ttl));
                    assert(fresh_entries(e.skip(m - 1), now, ttl) == rest);
                    lemma_prefix_key_pos(e, m - 1, rest);
                    assert(cur.remove(m - 1) =~= e.take(m - 1) + rest);
                }
                net_lru_pop(&mut self.memory, summary[i].0.as_str());
                assert(self@.entries == e.take(m - 1) + fresh_entries(e.skip(m - 1), now, ttl));
            } else {
                proof {
                    assert(still_fresh(now, e[m - 1].1.0, ttl));
                    assert(fresh_entries(e.skip(m - 1), now, ttl) == seq![e[m - 1]] + rest);
                    assert(cur =~= e.take(m - 1) + fresh_entries(e.skip(m - 1), now, ttl));
                }
            }
            i = i + 1;
        }
        assert(e.take(0) + fresh_entries(e.skip(0), now, self@.ttl_secs) =~= fresh_entries(e, now, self@.ttl_secs)) by {
            assert(e.skip(0) =~= e);
        }
        proof {
            lemma_fresh_entries_sound(e, now, self@.ttl_secs, self@.capacity);
        }
    }

    /// Removes every entry that is no longer valid now (see
    /// `clean_expired_at`).
    pub fn clean_expired(&mut self)
        requires
            old(self)@.wf(),
        ensures
            final(self)@.wf(),
            exists|now: u64|
                final(self)@ == (NetCacheView {
                    entries: #[trigger] fresh_entries(old(self)@.entries, now, old(self)@.ttl_secs),
                    ..old(self)@
                }),
    {
        let now = current_time_secs();
        self.clean_expired_at(now);
    }

    /// How long entries stay valid, in seconds.
    pub fn ttl_secs(&self) -> (r: u64)
        ensures
            r == self@.ttl_secs,
    {
        self.ttl_secs
    }
}

/// Bytes stored for a URL are read back while they are still valid.
pub proof fn law_stored_bytes_are_found(v: NetCacheView, url: Seq<char>, data: Seq<u8>, now: u64, later: u64)
    requires
        v.wf(),
        v.capacity > 0,
        still_fresh(later, now, v.ttl_secs),
    ensures
        cached_bytes(put_into(v.entries, v.capacity, url, (now, data)), url, later, v.ttl_secs) == Some(data),
{
    lemma_put_last(v.entries, v.capacity, url, (now, data));
}

/// Cleaning at `now` keeps exactly what is still valid at `now`: every
/// URL reads back the same bytes as before.
pub proof fn law_cleaning_keeps_valid_bytes(v: NetCacheView, url: Seq<char>, now: u64)
    requires
        v.wf(),
    ensures
        cached_bytes(fresh_entries(v.entries, now, v.ttl_secs), url, now, v.ttl_secs) == cached_bytes(
            v.entries,
            url,
            now,
            v.ttl_secs,
        ),
    decreases v.entries.len(),
{
    let e = v.entries;
    if e.len() > 0 {
        let rest = NetCacheView { entries: e.drop_first(), ..v };
        crate::emoji::lemma_drop_first_sound(e, v.capacity);
        law_cleaning_keeps_valid_bytes(rest, url, now);
        if e[0].0 != url {
            assert(key_pos(e, url) == 1 + key_pos(e.drop_first(), url));
            lemma_key_pos(e.drop_first(), url);
            if key_pos(e.drop_first(), url) < e.drop_first().len() {
                assert(e[key_pos(e, url)] == e.drop_first()[key_pos(e.drop_first(), url)]);
            }
            if still_fresh(now, e[0].1.0, v.ttl_secs) {
                let f = seq![e[0]] + fresh_entries(e.drop_first(), now, v.ttl_secs);
                assert(f.drop_first() =~= fresh_entries(e.drop_first(), now, v.ttl_secs));
                assert(f[0] == e[0]);
                lemma_key_pos(fresh_entries(e.drop_first(), now, v.ttl_secs), url);
                let g = fresh_entries(e.drop_first(), now, v.ttl_secs);
                if key_pos(g, url) < g.len() {
                    assert(f[key_pos(f, url)] == g[key_pos(g, url)]);
                }
            }
        } else {
            lemma_fresh_entries_sound(e.drop_first(), now, v.ttl_secs, v.capacity);
            if !still_fresh(now, e[0].1.0, v.ttl_secs) {
                let g = fresh_entries(e.drop_first(), now, v.ttl_secs);
                lemma_key_pos(g, url);
                if key_pos(g, url) < g.len() {
                    let x = g[key_pos(g, url)];
                    assert(g.contains(x));
                    assert(e.drop_first().contains(x));
                    let k = choose|k: int| 0 <= k < e.drop_first().len() && e.drop_first()[k] == x;
                    assert(e[k + 1] == x);
                    assert(e[0].0 != e[k + 1].0);
                }
            }
        }
    }
}

/// Empties a download cache (the process-wide one is held by the host).
pub fn clear_cache(cache: &mut NetworkCache)
    ensures
        final(cache)@ == (NetCacheView { entries: Seq::empty(), ..old(cache)@ }),
        final(cache)@.wf(),
{
    cache.clear();
}

/// Bytes held by a download cache, at most `u64::MAX`.
pub fn get_cache_size(cache: &NetworkCache) -> (r: u64)
    ensures
        r == min(total_len(cache@.entries) as int, u64::MAX as int),
{
    cache.size()
}

/// Drops the entries of a download cache that are no longer valid now.
pub fn clean_expired_cache(cache: &mut NetworkCache)
    requires
        old(cache)@.wf(),
    ensures
        final(cache)@.wf(),
        exists|now: u64|
            final(cache)@ == (NetCacheView {
                entries: #[trigger] fresh_entries(old(cache)@.entries, now, old(cache)@.ttl_secs),
                ..old(cache)@
            }),
{
    cache.clean_expired();
}

/// The byte total of a sequence is its first entry's bytes plus the rest.
proof fn lemma_total_len_front(e: Seq<(Seq<char>, (u64, Seq<u8>))>)
    requires
        e.len() > 0,
    ensures
        total_len(e) == e[0].1.1.len() + total_len(e.drop_first()),
    decreases e.len(),
{
    if e.len() > 1 {
        lemma_total_len_front(e.drop_last());
        assert(e.drop_last().drop_first() =~= e.drop_first().drop_last());
        assert(e.drop_last()[0] == e[0]);
        assert(e.drop_first().last() == e.last());
        assert(total_len(e.drop_first()) == total_len(e.drop_first().drop_last())
            + e.drop_first().last().1.1.len());
    } else {
        assert(e.drop_first().len() == 0);
        assert(e.drop_last().len() == 0);
        assert(total_len(e.drop_last()) == 0);
        assert(total_len(e.drop_first()) == 0);
        assert(e.last() == e[0]);
    }
}

/// In `e.take(m) + [e[m]] + rest` with distinct keys in `e`, the key of
/// `e[m]` is found at position `m`, and removing it leaves the other parts.
proof fn lemma_prefix_key_pos(
    e: Seq<(Seq<char>, (u64, Seq<u8>))>,
    m: int,
    rest: Seq<(Seq<char>, (u64, Seq<u8>))>,
)
    requires
        0 <= m < e.len(),
        forall|i: int, j: int| 0 <= i < j < e.len() ==> #[trigger] e[i].0 != #[trigger] e[j].0,
    ensures
        key_pos(e.take(m) + seq![e[m]] + rest, e[m].0) == m,
{
    let s = e.take(m) + seq![e[m]] + rest;
    lemma_key_pos(s, e[m].0);
    assert(s[m] == e[m]);
    assert forall|i: int| 0 <= i < m implies #[trigger] s[i].0 != e[m].0 by {
        assert(s[i] == e[i]);
    }
}

/// The valid entries of sound entries are sound.
proof fn lemma_fresh_entries_sound(e: Seq<(Seq<char>, (u64, Seq<u8>))>, now: u64, ttl: u64, cap: nat)
    requires
        lru_sound(e, cap),
    ensures
        lru_sound(fresh_entries(e, now, ttl), cap),
        forall|x| fresh_entries(e, now, ttl).contains(x) ==> e.contains(x),
    decreases e.len(),
{
    if e.len() > 0 {
        crate::emoji::lemma_drop_first_sound(e, cap);
        lemma_fresh_entries_sound(e.drop_first(), now, ttl, cap);
        let r = fresh_entries(e.drop_first(), now, ttl);
        assert forall|x| r.contains(x) implies e.contains(x) by {
            let j = choose|j: int| 0 <= j < r.len() && r[j] == x;
            assert(e.drop_first().contains(x));
            let k = choose|k: int| 0 <= k < e.drop_first().len() && e.drop_first()[k] == x;
            assert(e[k + 1] == x);
        }
        if still_fresh(now, e[0].1.0, ttl) {
            let s = seq![e[0]] + r;
            assert forall|i: int, j: int| 0 <= i < j < s.len() implies #[trigger] s[i].0 != #[trigger] s[j].0 by {
                if i == 0 {
                    assert(s[j] == r[j - 1]);
                    assert(r.contains(r[j - 1]));
                    assert(e.drop_first().contains(r[j - 1]));
                    let k = choose|k: int| 0 <= k < e.drop_first().len() && e.drop_first()[k] == r[j - 1];
                    assert(e[k + 1] == r[j - 1]);
                } else {
                    assert(s[i] == r[i - 1]);
                    assert(s[j] == r[j - 1]);
                }
            }
            assert forall|x| s.contains(x) implies e.contains(x) by {
                let j = choose|j: int| 0 <= j < s.len() && s[j] == x;
                if j == 0 {
                    assert(e[0] == x);
                } else {
                    assert(r[j - 1] == x);
                    assert(r.contains(x));
                }
            }
            assert(s.len() <= e.len()) by {
                lemma_fresh_entries_len(e, now, ttl);
            }
        }
    }
}

/// There are no more valid entries than entries.
proof fn lemma_fresh_entries_len(e: Seq<(Seq<char>, (u64, Seq<u8>))>, now: u64, ttl: u64)
    ensures
        fresh_entries(e, now, ttl).len() <= e.len(),
    decreases e.len(),
{
    if e.len() > 0 {
        lemma_fresh_entries_len(e.drop_first(), now, ttl);
    }
}

/// The last position of a character lies in the sequence, or is -1.
proof fn lemma_last_index(s: Seq<char>, c: char)
    ensures
        -1 <= last_index_of(s, c) < s.len(),
        last_index_of(s, c) >= 0 ==> s[last_index_of(s, c)] == c,
    decreases s.len(),
{
    if s.len() > 0 && s.last() != c {
        lemma_last_index(s.drop_last(), c);
    }
}

/// A download makes between one and three attempts, and stops at the
/// first non-empty body.
pub proof fn law_download_attempts_bounded(max_retries: u32, attempt: u32, n: usize)
    requires
        n > 0,
    ensures
        1 <= attempts(max_retries) <= 3,
        step_after(attempt, attempts(max_retries), AttemptResult::Fetched(n))
            == DownloadStep::Succeed,
        attempt + 1 >= attempts(max_retries) ==> step_after(
            attempt,
            attempts(max_retries),
            AttemptResult::Failed,
        ) == DownloadStep::GiveUp,
{
}

} // verus!
