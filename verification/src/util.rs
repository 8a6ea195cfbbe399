//! Web-layer helpers: response-header policies, cache-control wrappers, a
//! request-logging filter, a byte-limited read guard, and small string and
//! retry utilities. The HTTP framework itself stays outside the library;
//! these types carry the decisions it applies.
use vstd::prelude::*;
use vstd::std_specs::iter::IteratorSpec;

verus! {

/// A response wrapped with a fixed cache-control directive.
pub struct Cached<R>(pub R, pub &'static str);

impl<R> Cached<R> {
    /// Cache publicly for seven days.
    pub fn long(r: R) -> (c: Cached<R>)
        ensures
            c.0 == r,
            c.1@ == "public, max-age=604800"@,
    {
        Cached(r, "public, max-age=604800")
    }

    /// Cache publicly for ten minutes.
    pub fn short(r: R) -> (c: Cached<R>)
        ensures
            c.0 == r,
            c.1@ == "public, max-age=600"@,
    {
        Cached(r, "public, max-age=600")
    }
}

/// The fixed security headers applied to every response.
pub struct AppHeaders();

impl AppHeaders {
    /// The header names and values set on every response, in order.
    pub fn headers(&self) -> (r: Vec<(&'static str, &'static str)>)
        ensures
            r@.len() == 6,
            r@[0].0@ == "Feature-Policy"@ && r@[0].1@
                == "accelerometer 'none'; ambient-light-sensor 'none'; autoplay 'none'; camera 'none'; encrypted-media 'none'; fullscreen 'none'; geolocation 'none'; gyroscope 'none'; magnetometer 'none'; microphone 'none'; midi 'none'; payment 'none'; picture-in-picture 'none'; sync-xhr 'self' https://haveibeenpwned.com https://twofactorauth.org; usb 'none'; vr 'none'"@,
            r@[1].0@ == "Referrer-Policy"@ && r@[1].1@ == "same-origin"@,
            r@[2].0@ == "X-Frame-Options"@ && r@[2].1@ == "SAMEORIGIN"@,
            r@[3].0@ == "X-Content-Type-Options"@ && r@[3].1@ == "nosniff"@,
            r@[4].0@ == "X-XSS-Protection"@ && r@[4].1@ == "1; mode=block"@,
            r@[5].0@ == "Content-Security-Policy"@ && r@[5].1@
                == "frame-ancestors 'self' chrome-extension://nngceckbapebfimnlniiiahkandclblb moz-extension://*;"@,
    {
        let mut out: Vec<(&'static str, &'static str)> = Vec::new();
        out.push((
            "Feature-Policy",
            "accelerometer 'none'; ambient-light-sensor 'none'; autoplay 'none'; camera 'none'; encrypted-media 'none'; fullscreen 'none'; geolocation 'none'; gyroscope 'none'; magnetometer 'none'; microphone 'none'; midi 'none'; payment 'none'; picture-in-picture 'none'; sync-xhr 'self' https://haveibeenpwned.com https://twofactorauth.org; usb 'none'; vr 'none'",
        ));
        out.push(("Referrer-Policy", "same-origin"));
        out.push(("X-Frame-Options", "SAMEORIGIN"));
        out.push(("X-Content-Type-Options", "nosniff"));
        out.push(("X-XSS-Protection", "1; mode=block"));
        out.push((
            "Content-Security-Policy",
            "frame-ancestors 'self' chrome-extension://nngceckbapebfimnlniiiahkandclblb moz-extension://*;",
        ));
        out
    }

    /// The cache directive to add: set exactly when the response carries no
    /// cache-control header of its own.
    pub fn default_cache_control(&self, has_cache_control: bool) -> (r: Option<&'static str>)
        ensures
            has_cache_control ==> r is None,
            !has_cache_control ==> r is Some && r->0@ == "no-cache, no-store, max-age=0"@,
    {
        if has_cache_control {
            None
        } else {
            Some("no-cache, no-store, max-age=0")
        }
    }
}

/// Cross-origin response headers: echoes the caller's origin, methods and
/// headers back.
pub struct CORS();

impl CORS {
    /// The origin value to allow: a bare `file://` origin is widened to
    /// `*`, anything else is echoed unchanged.
    pub fn valid_url(url: String) -> (r: String)
        ensures
            url@ == "file://"@ ==> r@ == "*"@,
            url@ != "file://"@ ==> r == url,
    {
        let probe: String = "file://".to_owned();
        if url.eq(&probe) {
            "*".to_owned()
        } else {
            url
        }
    }
}

/// Whether `pre` is a prefix of `s`.
pub open spec fn starts_with_spec(s: Seq<char>, pre: Seq<char>) -> bool {
    pre.len() <= s.len() && s.take(pre.len() as int) == pre
}

/// Decides whether the text starts with the prefix.
pub fn str_starts_with(s: &str, pre: &str) -> (r: bool)
    ensures
        r == starts_with_spec(s@, pre@),
{
    broadcast use vstd::string::axiom_spec_iter, vstd::string::next_postcondition;

    let mut si = s.chars();
    let mut pi = pre.chars();
    let ghost mut k: int = 0;
    proof {
        assert(si.remaining() == s@);
        assert(pi.remaining() == pre@);
        assert(s@.take(0) =~= pre@.take(0));
    }
    loop
        invariant
            si.obeys_prophetic_iter_laws(),
            pi.obeys_prophetic_iter_laws(),
            si.decrease() is Some,
            pi.decrease() is Some,
            0 <= k <= s@.len(),
            k <= pre@.len(),
            si.remaining() == s@.skip(k),
            pi.remaining() == pre@.skip(k),
            s@.take(k) == pre@.take(k),
        decreases pi.decrease()->0,
    {
        match pi.next() {
            None => {
                proof {
                    assert(pre@.skip(k).len() == 0);
                    assert(pre@.take(k) =~= pre@);
                    assert(s@.take(pre@.len() as int) == pre@);
                }
                return true;
            },
            Some(pc) => {
                proof {
                    assert(pc == pre@[k]);
                }
                match si.next() {
                    None => {
                        proof {
                            assert(s@.len() == k);
                            assert(pre@.len() > k);
                        }
                        return false;
                    },
                    Some(sc) => {
                        proof {
                            assert(sc == s@[k]);
                        }
                        if sc != pc {
                            proof {
                                if starts_with_spec(s@, pre@) {
                                    assert(s@.take(pre@.len() as int)[k] == pre@[k]);
                                }
                            }
                            return false;
                        }
                        proof {
                            assert(si.remaining() == s@.skip(k).drop_first());
                            assert(pi.remaining() == pre@.skip(k).drop_first());
                            assert(s@.skip(k).drop_first() =~= s@.skip(k + 1));
                            assert(pre@.skip(k).drop_first() =~= pre@.skip(k + 1));
                            assert(s@.take(k + 1) =~= pre@.take(k + 1));
                            k = k + 1;
                        }
                    },
                }
            },
        }
    }
}

/// Whether the path falls under one of the logged route prefixes: the API,
/// the administrative pages, the identity endpoints, icons, the live-update
/// negotiation, and attachments. Static file routes and the liveness
/// endpoint fall outside all six.
pub open spec fn logged_route_spec(path: Seq<char>) -> bool {
    ||| starts_with_spec(path, "/api"@)
    ||| starts_with_spec(path, "/admin"@)
    ||| starts_with_spec(path, "/identity"@)
    ||| starts_with_spec(path, "/icons"@)
    ||| starts_with_spec(path, "/notifications/hub/negotiate"@)
    ||| starts_with_spec(path, "/attachments"@)
}

/// Decides whether a path falls under a logged route prefix.
pub fn logged_route(path: &str) -> (r: bool)
    ensures
        r == logged_route_spec(path@),
{
    str_starts_with(path, "/api") || str_starts_with(path, "/admin") || str_starts_with(
        path,
        "/identity",
    ) || str_starts_with(path, "/icons") || str_starts_with(path, "/notifications/hub/negotiate")
        || str_starts_with(path, "/attachments")
}

/// Chooses which requests and responses are logged; the flag widens
/// logging to everything, preflight requests and paths outside the logged
/// routes are skipped without it.
pub struct BetterLogging(pub bool);

impl BetterLogging {
    /// Whether a request or its response should be logged: everything in
    /// extra-debug mode, otherwise only non-preflight traffic on a logged
    /// route.
    pub fn log_request(&self, path: &str, is_options: bool) -> (r: bool)
        ensures
            r == (self.0 || (!is_options && logged_route_spec(path@))),
    {
        self.0 || (!is_options && logged_route(path))
    }
}

/// Guards a streamed read with a byte budget: once more bytes have been
/// requested than the limit, further reads report end of input.
pub struct LimitedReader {
    limit: usize,
    count: usize,
}

impl LimitedReader {
    /// How many bytes may be requested in total.
    pub closed spec fn limit(&self) -> usize {
        self.limit
    }

    /// How many bytes have been requested so far.
    pub closed spec fn count(&self) -> usize {
        self.count
    }

    /// A fresh guard with the given byte budget.
    pub fn new(limit: usize) -> (r: LimitedReader)
        ensures
            r.limit() == limit,
            r.count() == 0,
    {
        LimitedReader { limit, count: 0 }
    }

    /// Accounts a read of `buf_len` bytes and says whether it may proceed;
    /// past the budget, the caller reports end of input instead of
    /// reading.
    pub fn admit_read(&mut self, buf_len: usize) -> (r: bool)
        ensures
            final(self).limit() == old(self).limit(),
            final(self).count() == sat_add(old(self).count(), buf_len),
            r == (sat_add(old(self).count(), buf_len) <= old(self).limit()),
    {
        if buf_len > usize::MAX - self.count {
            self.count = usize::MAX;
        } else {
            self.count = self.count + buf_len;
        }
        self.count <= self.limit
    }
}

/// Saturating addition on the byte counter.
pub open spec fn sat_add(a: usize, b: usize) -> usize {
    if a + b <= usize::MAX {
        (a + b) as usize
    } else {
        usize::MAX
    }
}

/// What `char::to_uppercase` yields for one character: its Unicode
/// uppercase mapping, possibly several characters, a function of the
/// character alone.
pub uninterp spec fn upper_of(c: char) -> Seq<char>;

/// Relies on `char::to_uppercase`: the Unicode uppercase mapping of the
/// character, collected into a string.
#[verifier::external_body]
fn char_upper(c: char) -> (r: String)
    ensures
        r@ == upper_of(c),
{
    c.to_uppercase().collect()
}

/// What `str::to_lowercase` yields: the Unicode lowercase mapping of the
/// text, a function of its characters alone.
pub uninterp spec fn lower_of(s: Seq<char>) -> Seq<char>;

/// Relies on `str::to_lowercase`: the Unicode lowercase mapping of the
/// text.
#[verifier::external_body]
fn lowercase(s: &str) -> (r: String)
    ensures
        r@ == lower_of(s@),
{
    s.to_lowercase()
}

/// Relies on `String::push`: appends exactly the one character.
#[verifier::external_body]
fn push_char(s: &mut String, c: char)
    ensures
        final(s)@ == old(s)@.push(c),
{
    s.push(c)
}

/// An empty text stays empty; otherwise the first character is replaced by
/// its uppercase mapping and the rest is kept.
pub open spec fn upcase_first_spec(s: Seq<char>) -> Seq<char> {
    if s.len() == 0 {
        Seq::empty()
    } else {
        upper_of(s[0]) + s.skip(1)
    }
}

/// Upper-cases the first character of a text, leaving the rest unchanged.
pub fn upcase_first(s: &str) -> (r: String)
    ensures
        r@ == upcase_first_spec(s@),
{
    broadcast use vstd::string::axiom_spec_iter, vstd::string::next_postcondition;

    let mut it = s.chars();
    proof {
        assert(it.remaining() == s@);
    }
    match it.next() {
        None => {
            proof {
                assert(s@.len() == 0);
            }
            String::new()
        },
        Some(f) => {
            let mut r = char_upper(f);
            proof {
                assert(f == s@[0]);
                assert(it.remaining() == s@.drop_first());
                assert(r@ + it.remaining() =~= upcase_first_spec(s@));
            }
            loop
                invariant
                    it.obeys_prophetic_iter_laws(),
                    it.decrease() is Some,
                    r@ + it.remaining() == upcase_first_spec(s@),
                decreases it.decrease()->0,
            {
                match it.next() {
                    None => {
                        proof {
                            assert(it.remaining().len() == 0);
                            assert(r@ + it.remaining() =~= r@);
                        }
                        return r;
                    },
                    Some(c) => {
                        proof {
                            assert(r@.push(c) + it.remaining() =~= upcase_first_spec(s@));
                        }
                        push_char(&mut r, c);
                    },
                }
            }
        },
    }
}

/// The wire protocol's key casing: the one abbreviation kept whole,
/// everything else with its first character upper-cased.
pub open spec fn process_key_spec(k: Seq<char>) -> Seq<char> {
    if lower_of(k) == "ssn"@ {
        "SSN"@
    } else {
        upcase_first_spec(k)
    }
}

/// Renders an object key in the casing the protocol's clients expect.
pub fn _process_key(key: &str) -> (r: String)
    ensures
        r@ == process_key_spec(key@),
{
    let lowered = lowercase(key);
    let probe: String = "ssn".to_owned();
    if lowered.eq(&probe) {
        "SSN".to_owned()
    } else {
        upcase_first(key)
    }
}

/// One decimal digit as its character.
pub open spec fn dec_digit(d: int) -> char {
    ((d + 48) as u8) as char
}

/// The decimal numeral of a non-negative number.
pub open spec fn dec_str(n: int) -> Seq<char>
    decreases n,
{
    if n < 10 {
        seq![dec_digit(n)]
    } else {
        dec_str(n / 10).push(dec_digit(n % 10))
    }
}

/// Appends the decimal numeral of `n`.
fn push_dec(out: &mut String, n: u64)
    ensures
        final(out)@ == old(out)@ + dec_str(n as int),
    decreases n,
{
    if n >= 10 {
        push_dec(out, n / 10);
    }
    push_char(out, ((n % 10) as u8 + 48) as char);
    proof {
        if n < 10 {
            assert(old(out)@.push(dec_digit(n as int)) =~= old(out)@ + dec_str(n as int));
        } else {
            assert((old(out)@ + dec_str(n as int / 10)).push(dec_digit(n as int % 10)) =~= old(
                out,
            )@ + dec_str(n as int));
        }
    }
}

/// How many times a size is scaled down by 1024 before display.
pub open spec fn unit_steps(n: int) -> int {
    if n <= 1024 {
        0
    } else if n <= 1048576 {
        1
    } else if n <= 1073741824 {
        2
    } else {
        3
    }
}

/// The divisor belonging to a scaling step.
pub open spec fn unit_divisor(k: int) -> int {
    if k == 0 {
        1
    } else if k == 1 {
        1024
    } else if k == 2 {
        1048576
    } else {
        1073741824
    }
}

/// The unit label belonging to a scaling step.
pub open spec fn unit_name(k: int) -> Seq<char> {
    if k == 0 {
        "bytes"@
    } else if k == 1 {
        "KB"@
    } else if k == 2 {
        "MB"@
    } else {
        "GB"@
    }
}

/// The scaled size in hundredths, rounded half up.
pub open spec fn scaled_hundredths(n: int) -> int {
    let den = unit_divisor(unit_steps(n));
    (100 * n + den / 2) / den
}

/// The size rendered for display: scaled to the fitting unit and rounded
/// to at most two decimals, trailing zeros dropped.
pub open spec fn size_text(size: int) -> Seq<char> {
    if size < 0 {
        seq!['-'] + dec_str(-size) + seq![' '] + "bytes"@
    } else {
        let h = scaled_hundredths(size);
        (if h % 100 == 0 {
            dec_str(h / 100)
        } else if h % 10 == 0 {
            dec_str(h / 100) + seq!['.', dec_digit((h / 10) % 10)]
        } else {
            dec_str(h / 100) + seq!['.', dec_digit((h / 10) % 10), dec_digit(h % 10)]
        }) + seq![' '] + unit_name(unit_steps(size))
    }
}

/// Renders a byte count the way humans read it: scaled to the largest
/// unit that keeps the value at most 1024, rounded to two decimals.
pub fn get_display_size(size: i32) -> (r: String)
    ensures
        r@ == size_text(size as int),
{
    let mut out = String::new();
    if size < 0 {
        push_char(&mut out, '-');
        let n: u64 = (-(size as i64)) as u64;
        push_dec(&mut out, n);
        push_char(&mut out, ' ');
        out.append("bytes");
        proof {
            assert(out@ =~= size_text(size as int));
        }
        out
    } else {
        let n: u64 = size as u64;
        let (k, den): (u32, u64) = if n <= 1024 {
            (0, 1)
        } else if n <= 1048576 {
            (1, 1024)
        } else if n <= 1073741824 {
            (2, 1048576)
        } else {
            (3, 1073741824)
        };
        let h: u64 = (100 * n + den / 2) / den;
        proof {
            assert(h == scaled_hundredths(size as int));
        }
        push_dec(&mut out, h / 100);
        if h % 100 != 0 {
            push_char(&mut out, '.');
            push_char(&mut out, (((h / 10) % 10) as u8 + 48) as char);
            if h % 10 != 0 {
                push_char(&mut out, ((h % 10) as u8 + 48) as char);
            }
        }
        push_char(&mut out, ' ');
        match k {
            0 => out.append("bytes"),
            1 => out.append("KB"),
            2 => out.append("MB"),
            _ => out.append("GB"),
        };
        proof {
            assert(out@ =~= size_text(size as int));
        }
        out
    }
}

/// The two-digit zero-padded numeral of a value below one hundred.
pub open spec fn pad2(n: int) -> Seq<char> {
    seq![dec_digit(n / 10), dec_digit(n % 10)]
}

/// The numeral of a year, zero-padded to at least four digits.
pub open spec fn pad4(n: int) -> Seq<char> {
    if n < 10 {
        seq!['0', '0', '0'] + dec_str(n)
    } else if n < 100 {
        seq!['0', '0'] + dec_str(n)
    } else if n < 1000 {
        seq!['0'] + dec_str(n)
    } else {
        dec_str(n)
    }
}

/// The six-digit zero-padded numeral of a microsecond count.
pub open spec fn pad6(n: int) -> Seq<char> {
    seq![
        dec_digit(n / 100000 % 10),
        dec_digit(n / 10000 % 10),
        dec_digit(n / 1000 % 10),
        dec_digit(n / 100 % 10),
        dec_digit(n / 10 % 10),
        dec_digit(n % 10),
    ]
}

/// The civil year of a day count since the epoch, by the era-based
/// Gregorian calendar arithmetic; `m` and `d` likewise below.
pub open spec fn civil_y(days: int) -> int {
    let z = days + 719468;
    let era = z / 146097;
    let doe = z % 146097;
    let yoe = (doe - doe / 1460 + doe / 36524 - doe / 146096) / 365;
    let doy = doe - (365 * yoe + yoe / 4 - yoe / 100);
    let mp = (5 * doy + 2) / 153;
    let m = if mp < 10 {
        mp + 3
    } else {
        mp - 9
    };
    if m <= 2 {
        yoe + era * 400 + 1
    } else {
        yoe + era * 400
    }
}

/// The civil month of a day count since the epoch.
pub open spec fn civil_m(days: int) -> int {
    let z = days + 719468;
    let doe = z % 146097;
    let yoe = (doe - doe / 1460 + doe / 36524 - doe / 146096) / 365;
    let doy = doe - (365 * yoe + yoe / 4 - yoe / 100);
    let mp = (5 * doy + 2) / 153;
    if mp < 10 {
        mp + 3
    } else {
        mp - 9
    }
}

/// The civil day of month of a day count since the epoch.
pub open spec fn civil_d(days: int) -> int {
    let z = days + 719468;
    let doe = z % 146097;
    let yoe = (doe - doe / 1460 + doe / 36524 - doe / 146096) / 365;
    let doy = doe - (365 * yoe + yoe / 4 - yoe / 100);
    let mp = (5 * doy + 2) / 153;
    doy - (153 * mp + 2) / 5 + 1
}

/// A timestamp on the wire: the civil date and time of the epoch second,
/// with six microsecond digits and a trailing zone letter.
pub open spec fn timestamp_text(secs: int, micros: int) -> Seq<char> {
    let days = secs / 86400;
    let sod = secs % 86400;
    pad4(civil_y(days)) + seq!['-'] + pad2(civil_m(days)) + seq!['-'] + pad2(civil_d(days)) + seq![
        'T',
    ] + pad2(sod / 3600) + seq![':'] + pad2(sod % 3600 / 60) + seq![':'] + pad2(sod % 60) + seq![
        '.',
    ] + pad6(micros) + seq!['Z']
}

/// Appends the two-digit zero-padded numeral of `n`.
fn push_pad2(out: &mut String, n: u64)
    requires
        n < 100,
    ensures
        final(out)@ == old(out)@ + pad2(n as int),
{
    push_char(out, ((n / 10) as u8 + 48) as char);
    push_char(out, ((n % 10) as u8 + 48) as char);
    proof {
        assert(old(out)@.push(dec_digit(n as int / 10)).push(dec_digit(n as int % 10)) =~= old(
            out,
        )@ + pad2(n as int));
    }
}

/// Renders an epoch timestamp the way the wire protocol expects: the civil
/// date, the time of day, six microsecond digits, and the zone letter.
#[verifier::rlimit(60)]
pub fn format_timestamp(secs: u64, micros: u32) -> (r: String)
    requires
        micros < 1000000,
    ensures
        r@ == timestamp_text(secs as int, micros as int),
{
    let days: u64 = secs / 86400;
    let sod: u64 = secs % 86400;
    let z: u64 = days + 719468;
    let era: u64 = z / 146097;
    let doe: u64 = z % 146097;
    let yoe: u64 = (doe - doe / 1460 + doe / 36524 - doe / 146096) / 365;
    let doy: u64 = doe - (365 * yoe + yoe / 4 - yoe / 100);
    let mp: u64 = (5 * doy + 2) / 153;
    let d: u64 = doy - (153 * mp + 2) / 5 + 1;
    let m: u64 = if mp < 10 {
        mp + 3
    } else {
        mp - 9
    };
    let y: u64 = if m <= 2 {
        yoe + era * 400 + 1
    } else {
        yoe + era * 400
    };
    proof {
        assert(y == civil_y(secs as int / 86400));
        assert(m == civil_m(secs as int / 86400));
        assert(d == civil_d(secs as int / 86400));
    }
    let mut out = String::new();
    if y < 10 {
        out.append("000");
    } else if y < 100 {
        out.append("00");
    } else if y < 1000 {
        out.append("0");
    }
    push_dec(&mut out, y);
    proof {
        assert(out@ =~= pad4(y as int));
    }
    push_char(&mut out, '-');
    push_pad2(&mut out, m);
    push_char(&mut out, '-');
    push_pad2(&mut out, d);
    push_char(&mut out, 'T');
    push_pad2(&mut out, sod / 3600);
    push_char(&mut out, ':');
    push_pad2(&mut out, sod % 3600 / 60);
    push_char(&mut out, ':');
    push_pad2(&mut out, sod % 60);
    push_char(&mut out, '.');
    let mi = micros as u64;
    push_char(&mut out, ((mi / 100000 % 10) as u8 + 48) as char);
    push_char(&mut out, ((mi / 10000 % 10) as u8 + 48) as char);
    push_char(&mut out, ((mi / 1000 % 10) as u8 + 48) as char);
    push_char(&mut out, ((mi / 100 % 10) as u8 + 48) as char);
    push_char(&mut out, ((mi / 10 % 10) as u8 + 48) as char);
    push_char(&mut out, ((mi % 10) as u8 + 48) as char);
    push_char(&mut out, 'Z');
    proof {
        assert(out@ =~= timestamp_text(secs as int, micros as int));
    }
    out
}

/// A lowercase hexadecimal digit.
pub open spec fn is_lower_hex(c: char) -> bool {
    ('0' <= c && c <= '9') || ('a' <= c && c <= 'f')
}

/// The hyphenated rendering of a version-4 identifier: 36 characters,
/// hyphens at the four fixed positions, lowercase hex elsewhere, the
/// version nibble `4` and an RFC 4122 variant nibble.
pub open spec fn is_hyphenated_v4(s: Seq<char>) -> bool {
    &&& s.len() == 36
    &&& forall|i: int|
        0 <= i < 36 ==> (if i == 8 || i == 13 || i == 18 || i == 23 {
            s[i] == '-'
        } else {
            is_lower_hex(#[trigger] s[i])
        })
    &&& s[14] == '4'
    &&& (s[19] == '8' || s[19] == '9' || s[19] == 'a' || s[19] == 'b')
}

/// Relies on `uuid::Uuid::new_v4` and its `Display` impl: a random
/// version-4 identifier in the hyphenated lowercase form, with the version
/// and variant bits forced; the 122 random bits themselves promise
/// nothing further.
#[verifier::external_body]
pub fn get_uuid() -> (r: String)
    ensures
        r@.len() == 36,
        is_hyphenated_v4(r@),
{
    uuid::Uuid::new_v4().to_string()
}

/// Relies on `str::parse` through the `FromStr` impl of the target type;
/// which strings parse is that impl's affair, so only the error side is
/// promised: an `Err` input is swallowed into `None`.
#[verifier::external_body]
pub fn try_parse_string<S: AsRef<str>, T: core::str::FromStr, U>(string: Result<S, U>) -> (r:
    Option<T>)
    ensures
        string is Err ==> r is None,
{
    match string {
        Ok(s) => match s.as_ref().parse::<T>() {
            Ok(v) => Some(v),
            Err(_) => None,
        },
        Err(_) => None,
    }
}

/// Calls `func` until it succeeds, at most `max_tries` times (at least
/// once), and returns the last outcome. Pauses between attempts are the
/// caller's affair, inside `func`.
pub fn retry<T, E, F: Fn() -> Result<T, E>>(func: F, max_tries: i32) -> (r: Result<T, E>)
    requires
        forall|unit: ()| call_requires(func, unit),
    ensures
        call_ensures(func, (), r),
{
    let mut tries: i32 = 0;
    loop
        invariant
            0 <= tries,
            tries <= i32::MAX,
            forall|unit: ()| call_requires(func, unit),
        decreases i32::MAX - tries,
    {
        match func() {
            Ok(v) => {
                return Ok(v);
            },
            Err(e) => {
                if tries as i64 >= max_tries as i64 - 1 {
                    return Err(e);
                }
                tries = tries + 1;
            },
        }
    }
}

} // verus!
