//! Canon CCAPI: what the backend decides about the REST/JSON API a camera serves over Wi-Fi.
//!
//! Endpoint paths are versioned (`ver100`, `ver110`, … `ver130`) and which versions exist
//! differs per body and firmware, so no version is hardcoded: each endpoint is resolved against
//! the camera's own listing, the newest version winning.
//!
//! CCAPI announces nothing on its own. The camera is asked what it has been doing, each answer
//! covering only the time since the previous one; the answers are turned into frame and dial
//! events here.

use vstd::prelude::*;

use super::error::{CameraError, CameraResult};
use super::model::{BatteryStatus, CameraTarget, Dial, Vendor, VendorProfile};
use crate::text::{
    ascii_lowercase, chars_of, contains, contains_seq, copy_range, decimal, ends_with,
    chars_eq, find_first, find_last, first_index, has_prefix, has_suffix, last_index,
    leading_run, matches_at, owned,
    parse_bounded, parse_unsigned, push_chars, push_decimal, push_str, starts_with, string_from,
    strip_leading, to_ascii_lowercase, trim, trimmed,
};

verus! {

/// CCAPI's answer for anything it is not offering at the moment.
pub const UNAVAILABLE: u16 = 503;

pub open spec fn spec_dial_endpoint(dial: Dial) -> Seq<char> {
    match dial {
        Dial::Shutter => "shooting/settings/tv"@,
        Dial::Aperture => "shooting/settings/av"@,
        Dial::Iso => "shooting/settings/iso"@,
    }
}

/// Each dial is read and set through the CCAPI endpoint named after it - `tv` for the shutter,
/// `av` for the aperture, `iso` for ISO - and no two dials share an endpoint.
pub proof fn dials_have_their_own_endpoints(a: Dial, b: Dial)
    ensures
        a == Dial::Shutter ==> spec_dial_endpoint(a) == "shooting/settings/tv"@,
        a == Dial::Aperture ==> spec_dial_endpoint(a) == "shooting/settings/av"@,
        a == Dial::Iso ==> spec_dial_endpoint(a) == "shooting/settings/iso"@,
        a != b ==> spec_dial_endpoint(a) != spec_dial_endpoint(b),
{
    reveal_strlit("shooting/settings/tv");
    reveal_strlit("shooting/settings/av");
    reveal_strlit("shooting/settings/iso");
    if a != b {
        let x = spec_dial_endpoint(a);
        let y = spec_dial_endpoint(b);
        if x.len() == y.len() {
            assert(x[18] != y[18] || x[19] != y[19]);
        }
    }
}

/// The settings endpoint behind each dial.
pub fn dial_endpoint(dial: Dial) -> (r: &'static str)
    ensures
        r@ == spec_dial_endpoint(dial),
        dial == Dial::Shutter ==> r@ == "shooting/settings/tv"@,
        dial == Dial::Aperture ==> r@ == "shooting/settings/av"@,
        dial == Dial::Iso ==> r@ == "shooting/settings/iso"@,
{
    match dial {
        Dial::Shutter => "shooting/settings/tv",
        Dial::Aperture => "shooting/settings/av",
        Dial::Iso => "shooting/settings/iso",
    }
}

/// What the connect screen shows for this vendor.
pub open spec fn is_profile(p: VendorProfile) -> bool {
    &&& p.vendor == Vendor::Canon
    &&& p.label@ == "Canon"@
    &&& p.summary@ == "CCAPI over HTTP - unlock per body, then read the address off the camera"@
    &&& p.default_port == 8080
    &&& p.access_point_host is None
    &&& p.needs_address
    &&& p.implemented
    &&& !p.developer_only
}

/// What the connect screen shows for Canon.
pub fn profile() -> (r: VendorProfile)
    ensures
        is_profile(r),
{
    VendorProfile {
        vendor: Vendor::Canon,
        label: owned(Vendor::Canon.label()),
        summary: owned("CCAPI over HTTP - unlock per body, then read the address off the camera"),
        default_port: Vendor::Canon.default_port(),
        // The address differs between bodies, and a camera running CCAPI shows its own.
        access_point_host: None,
        needs_address: true,
        implemented: true,
        developer_only: false,
    }
}

// ---------------------------------------------------------------------------------------------
// Paths and URLs
// ---------------------------------------------------------------------------------------------

/// `/ccapi/ver100/shooting/settings/tv` -> `shooting/settings/tv`: leading slashes dropped, then
/// `ccapi/`, then the version segment; nothing when what is left is empty.
pub open spec fn spec_endpoint_suffix(path: Seq<char>) -> Option<Seq<char>> {
    let t = strip_leading(path, '/');
    if has_prefix(t, "ccapi/"@) {
        let rest = t.subrange(6, t.len() as int);
        match first_index(rest, '/') {
            Some(i) => {
                let suffix = rest.subrange(i + 1, rest.len() as int);
                if suffix.len() > 0 {
                    Some(suffix)
                } else {
                    None
                }
            },
            None => None,
        }
    } else {
        None
    }
}

/// The part of an endpoint's path after its version segment.
pub fn endpoint_suffix(path: &str) -> (r: Option<&str>)
    ensures
        match r {
            Some(s) => spec_endpoint_suffix(path@) == Some(s@),
            None => spec_endpoint_suffix(path@) is None,
        },
{
    proof {
        reveal_strlit("ccapi/");
    }
    let cs = chars_of(path);
    let n = cs.len();
    let k = leading_run(cs.as_slice(), '/');
    let ghost t = cs@.subrange(k as int, n as int);
    let prefix = chars_of("ccapi/");
    if n - k < 6 {
        return None;
    }
    if !matches_at(cs.as_slice(), prefix.as_slice(), k) {
        assert(t.subrange(0, 6) =~= cs@.subrange(k as int, k + 6));
        return None;
    }
    assert(t.subrange(0, 6) =~= cs@.subrange(k as int, k + 6));
    let start = k + 6;
    let rest = copy_range(cs.as_slice(), start, n);
    assert(rest@ =~= t.subrange(6, t.len() as int));
    match find_first(rest.as_slice(), '/') {
        None => None,
        Some(i) => {
            proof {
                crate::text::lemma_first_index(rest@, '/');
            }
            let from = start + i + 1;
            if from < n {
                let s = path.substring_char(from, n);
                assert(s@ =~= rest@.subrange(i + 1, rest@.len() as int));
                Some(s)
            } else {
                None
            }
        },
    }
}

pub open spec fn spec_polling_url(base: Seq<char>) -> Seq<char> {
    if contains_seq(base, "/ver100/"@) {
        base
    } else {
        base + "?timeout=immediately"@
    }
}

/// How to ask this camera for events: CCAPI 1.0.0 takes `continue`, whose default already
/// means "answer now", and refuses the `timeout` that 1.1.0 and later take.
pub fn polling_url(base: &str) -> (r: String)
    ensures
        r@ == spec_polling_url(base@),
{
    let cs = chars_of(base);
    let marker = chars_of("/ver100/");
    if contains(cs.as_slice(), marker.as_slice()) {
        owned(base)
    } else {
        let mut out = cs;
        push_str(&mut out, "?timeout=immediately");
        string_from(out.as_slice())
    }
}

/// `http://host:port` in front of a path.
pub open spec fn spec_url(host: Seq<char>, port: u16, path: Seq<char>) -> Seq<char> {
    "http://"@ + host + ":"@ + decimal(port as nat) + path
}

pub open spec fn spec_content_url(host: Seq<char>, port: u16, entry: Seq<char>) -> Seq<char> {
    if has_prefix(entry, "http://"@) || has_prefix(entry, "https://"@) {
        entry
    } else {
        spec_url(host, port, entry)
    }
}

fn url_of(host: &str, port: u16, path: &[char]) -> (r: String)
    ensures
        r@ == spec_url(host@, port, path@),
{
    let mut out: Vec<char> = Vec::new();
    push_str(&mut out, "http://");
    push_str(&mut out, host);
    push_str(&mut out, ":");
    push_decimal(&mut out, port as u64);
    push_chars(&mut out, path);
    string_from(out.as_slice())
}

/// Turn an entry of `addedcontents` into something fetchable: CCAPI 1.0.0 lists whole URLs,
/// 1.1.0 and later list paths, and prefixing a URL that already has a host would produce an
/// address that cannot resolve.
pub fn content_url(target: &CameraTarget, entry: &str) -> (r: String)
    ensures
        r@ == spec_content_url(target.host@, target.port, entry@),
{
    let cs = chars_of(entry);
    let http = chars_of("http://");
    let https = chars_of("https://");
    if starts_with(cs.as_slice(), http.as_slice()) || starts_with(cs.as_slice(), https.as_slice()) {
        owned(entry)
    } else {
        url_of(target.host.as_str(), target.port, cs.as_slice())
    }
}

/// A content URL is already fetchable: turning it into one again changes nothing, so both
/// shapes of an `addedcontents` entry end up as the same single URL.
pub proof fn content_url_is_stable(host: Seq<char>, port: u16, entry: Seq<char>)
    ensures
        spec_content_url(host, port, spec_content_url(host, port, entry)) == spec_content_url(
            host,
            port,
            entry,
        ),
{
    reveal_strlit("http://");
    let u = spec_content_url(host, port, entry);
    if !(has_prefix(entry, "http://"@) || has_prefix(entry, "https://"@)) {
        assert(u.subrange(0, 7) =~= "http://"@);
    }
}

pub open spec fn spec_is_jpeg_path(path: Seq<char>) -> bool {
    has_suffix(ascii_lowercase(path), ".jpg"@) || has_suffix(ascii_lowercase(path), ".jpeg"@)
}

/// Whether a content path names a JPEG, by its extension, in either case.
pub fn is_jpeg_path(path: &str) -> (r: bool)
    ensures
        r == spec_is_jpeg_path(path@),
{
    let lower = to_ascii_lowercase(chars_of(path).as_slice());
    let jpg = chars_of(".jpg");
    let jpeg = chars_of(".jpeg");
    ends_with(lower.as_slice(), jpg.as_slice()) || ends_with(lower.as_slice(), jpeg.as_slice())
}

// ---------------------------------------------------------------------------------------------
// Refusals
// ---------------------------------------------------------------------------------------------

pub open spec fn mode_hint() -> Seq<char> {
    ". The camera's mode dial is in a position that does not expose shutter, aperture and ISO - set it to M."@
}

pub open spec fn spec_explain(status: u16, message: Seq<char>) -> Seq<char> {
    if status == UNAVAILABLE && contains_seq(ascii_lowercase(message), "mode"@) {
        message + mode_hint()
    } else {
        message
    }
}

/// Add the cause behind a CCAPI refusal that would otherwise say nothing useful.
///
/// `Mode not supported` means the mode dial is somewhere that does not let a person set that
/// dial either. Canon's own wording is left alone otherwise. ASCII lowering is enough to find
/// the word: no other character lowers into one of its letters.
pub fn explain(status: u16, message: String) -> (r: String)
    ensures
        r@ == spec_explain(status, message@),
{
    if status == UNAVAILABLE {
        let lower = to_ascii_lowercase(chars_of(message.as_str()).as_slice());
        let word = chars_of("mode");
        if contains(lower.as_slice(), word.as_slice()) {
            let mut out = chars_of(message.as_str());
            push_str(
                &mut out,
                ". The camera's mode dial is in a position that does not expose shutter, aperture and ISO - set it to M.",
            );
            return string_from(out.as_slice());
        }
    }
    message
}

pub open spec fn spec_refusal_message(
    parsed: Option<Seq<char>>,
    body: Seq<char>,
    status_text: Seq<char>,
) -> Seq<char> {
    match parsed {
        Some(m) => m,
        None => if trimmed(body).len() == 0 {
            status_text
        } else {
            trimmed(body)
        },
    }
}

/// The error a non-2xx reply becomes: CCAPI's own `message` where the body carried one,
/// otherwise the body itself, otherwise the status line - explained where that helps.
pub fn refusal(status: u16, parsed: Option<String>, body: &str, status_text: &str) -> (r:
    CameraError)
    ensures
        r matches CameraError::Rejected { status: s, message } && s == status && message@
            == spec_explain(
            status,
            spec_refusal_message(
                match parsed {
                    Some(m) => Some(m@),
                    None => None,
                },
                body@,
                status_text@,
            ),
        ),
{
    let message = match parsed {
        Some(m) => m,
        None => {
            let t = trim(chars_of(body).as_slice());
            if t.len() == 0 {
                owned(status_text)
            } else {
                string_from(t.as_slice())
            }
        },
    };
    CameraError::Rejected { status, message: explain(status, message) }
}

pub open spec fn unreachable_message(reason: Seq<char>, host: Seq<char>, port: u16) -> Seq<char> {
    reason + ". Nothing answered at "@ + host + ":"@ + decimal(port as nat)
        + " - either the address is wrong, or CCAPI has not been switched on for this camera. CCAPI ships dormant and has to be unlocked once per body with Canon's activation tool over USB."@
}

/// What a failed first request at connect means.
///
/// A body whose CCAPI has never been unlocked refuses the connection exactly as a wrong
/// address does, so a transport failure names both causes. Other errors pass unchanged.
pub fn explain_unreachable(err: CameraError, host: &str, port: u16) -> (r: CameraError)
    ensures
        err matches CameraError::Transport(reason) ==> (r matches CameraError::Transport(m)
            && m@ == unreachable_message(reason@, host@, port)),
        !(err is Transport) ==> r == err,
{
    match err {
        CameraError::Transport(reason) => {
            let mut out = chars_of(reason.as_str());
            push_str(&mut out, ". Nothing answered at ");
            push_str(&mut out, host);
            push_str(&mut out, ":");
            push_decimal(&mut out, port as u64);
            push_str(
                &mut out,
                " - either the address is wrong, or CCAPI has not been switched on for this camera. CCAPI ships dormant and has to be unlocked once per body with Canon's activation tool over USB.",
            );
            CameraError::Transport(string_from(out.as_slice()))
        },
        other => other,
    }
}

// ---------------------------------------------------------------------------------------------
// Dials
// ---------------------------------------------------------------------------------------------

/// The shape of every `shooting/settings/*` endpoint: the value in effect and the values
/// currently selectable.
#[derive(Debug, Clone)]
pub struct Setting {
    pub value: Option<String>,
    pub ability: Vec<String>,
}

impl Setting {
    /// The value in effect, where the camera reported one that is not empty.
    pub fn current_token(&self) -> (r: Option<String>)
        ensures
            match self.value {
                Some(v) => if v@.len() > 0 {
                    r matches Some(t) && t@ == v@
                } else {
                    r is None
                },
                None => r is None,
            },
    {
        match &self.value {
            Some(v) => if v.as_str().unicode_len() > 0 {
                Some(owned(v.as_str()))
            } else {
                None
            },
            None => None,
        }
    }
}

/// One dial read: a refusal with CCAPI's "not now" status means the camera will not talk about
/// this dial at the moment (a manual lens has no f-number), which is absence, not failure.
pub fn dial_reply(reply: CameraResult<Setting>) -> (r: CameraResult<Option<Setting>>)
    ensures
        reply is Ok ==> r == Ok::<Option<Setting>, CameraError>(Some(reply->Ok_0)),
        reply matches Err(CameraError::Rejected { status, .. }) && status == UNAVAILABLE ==> r
            == Ok::<Option<Setting>, CameraError>(None),
        reply is Err && !(reply matches Err(CameraError::Rejected { status, .. }) && status
            == UNAVAILABLE) ==> r == Err::<Option<Setting>, CameraError>(reply->Err_0),
{
    match reply {
        Ok(setting) => Ok(Some(setting)),
        Err(CameraError::Rejected { status, message }) => {
            if status == UNAVAILABLE {
                Ok(None)
            } else {
                Err(CameraError::Rejected { status, message })
            }
        },
        Err(err) => Err(err),
    }
}

pub open spec fn read_or_absent(r: CameraResult<Option<Setting>>) -> Option<Setting> {
    match r {
        Ok(s) => s,
        Err(_) => None,
    }
}

/// Decide what three dial reads amount to: a dial nobody can read is absent, but all three
/// failing at once is the camera rather than a dial, and the first failure is passed on.
pub fn settled(
    shutter: CameraResult<Option<Setting>>,
    aperture: CameraResult<Option<Setting>>,
    iso: CameraResult<Option<Setting>>,
) -> (r: CameraResult<[Option<Setting>; 3]>)
    ensures
        shutter is Err && aperture is Err && iso is Err ==> r == Err::<
            [Option<Setting>; 3],
            CameraError,
        >(shutter->Err_0),
        !(shutter is Err && aperture is Err && iso is Err) ==> r is Ok && r->Ok_0[0]
            == read_or_absent(shutter) && r->Ok_0[1] == read_or_absent(aperture) && r->Ok_0[2]
            == read_or_absent(iso),
{
    match (shutter, aperture, iso) {
        (Err(e), Err(_), Err(_)) => Err(e),
        (a, b, c) => {
            let x = match a {
                Ok(s) => s,
                Err(_) => None,
            };
            let y = match b {
                Ok(s) => s,
                Err(_) => None,
            };
            let z = match c {
                Ok(s) => s,
                Err(_) => None,
            };
            Ok([x, y, z])
        },
    }
}

// ---------------------------------------------------------------------------------------------
// Battery
// ---------------------------------------------------------------------------------------------

/// The battery endpoint's answer: a keyword or a numeric percentage, depending on the body.
#[derive(Debug, Clone)]
pub struct BatteryResponse {
    pub level: String,
}

pub open spec fn spec_battery_percent(level: Seq<char>) -> Option<u8> {
    let word = ascii_lowercase(trimmed(level));
    if word == "full"@ {
        Some(100)
    } else if word == "high"@ {
        Some(75)
    } else if word == "half"@ {
        Some(50)
    } else if word == "quarter"@ {
        Some(25)
    } else if word == "low"@ {
        Some(10)
    } else if word == "end"@ {
        Some(0)
    } else {
        match parse_unsigned(word, 255) {
            Some(n) => Some(n as u8),
            None => None,
        }
    }
}

fn is_word(w: &[char], s: &str) -> (r: bool)
    ensures
        r == (w@ == s@),
{
    let cs = chars_of(s);
    crate::text::chars_eq(w, cs.as_slice())
}

impl BatteryResponse {
    /// A percentage where the level maps onto one, and the level as the camera worded it.
    pub fn into_status(self) -> (r: BatteryStatus)
        ensures
            r.percent == spec_battery_percent(self.level@),
            r.label@ == self.level@,
    {
        let word = to_ascii_lowercase(trim(chars_of(self.level.as_str()).as_slice()).as_slice());
        let w = word.as_slice();
        let percent: Option<u8> = if is_word(w, "full") {
            Some(100)
        } else if is_word(w, "high") {
            Some(75)
        } else if is_word(w, "half") {
            Some(50)
        } else if is_word(w, "quarter") {
            Some(25)
        } else if is_word(w, "low") {
            Some(10)
        } else if is_word(w, "end") {
            Some(0)
        } else {
            match parse_bounded(w, 255) {
                Some(n) => Some(n as u8),
                None => None,
            }
        };
        BatteryStatus { percent, label: self.level }
    }
}

// ---------------------------------------------------------------------------------------------
// Endpoints
// ---------------------------------------------------------------------------------------------

/// What a run of entries maps `key` to: the last entry carrying it.
pub open spec fn lookup(entries: Seq<(Seq<char>, Seq<char>)>, key: Seq<char>) -> Option<Seq<char>>
    decreases entries.len(),
{
    if entries.len() == 0 {
        None
    } else if entries.last().0 == key {
        Some(entries.last().1)
    } else {
        lookup(entries.drop_last(), key)
    }
}

pub open spec fn distinct_keys(entries: Seq<(Seq<char>, Seq<char>)>) -> bool {
    forall|i: int, j: int| 0 <= i < j < entries.len() ==> entries[i].0 != entries[j].0
}

proof fn lemma_lookup_update(
    entries: Seq<(Seq<char>, Seq<char>)>,
    i: int,
    key: Seq<char>,
    url: Seq<char>,
    k: Seq<char>,
)
    requires
        0 <= i < entries.len(),
        entries[i].0 == key,
        distinct_keys(entries),
    ensures
        lookup(entries.update(i, (key, url)), k) == (if k == key {
            Some(url)
        } else {
            lookup(entries, k)
        }),
    decreases entries.len(),
{
    let u = entries.update(i, (key, url));
    if i == entries.len() - 1 {
        assert(u.drop_last() =~= entries.drop_last());
    } else {
        assert(u.drop_last() =~= entries.drop_last().update(i, (key, url)));
        assert(entries.last().0 != key);
        if entries.last().0 != k {
            lemma_lookup_update(entries.drop_last(), i, key, url, k);
        }
    }
}

/// The listing after mapping `key` to `url`: an entry already carrying `key` is rewritten in
/// place, otherwise the pair joins the end.
pub open spec fn spec_insert(
    entries: Seq<(Seq<char>, Seq<char>)>,
    key: Seq<char>,
    url: Seq<char>,
) -> Seq<(Seq<char>, Seq<char>)> {
    if exists|i: int| 0 <= i < entries.len() && #[trigger] entries[i].0 == key {
        let i = choose|i: int| 0 <= i < entries.len() && #[trigger] entries[i].0 == key;
        entries.update(i, (key, url))
    } else {
        entries.push((key, url))
    }
}

/// Endpoint suffix -> absolute URL, built from the camera's own listing.
pub struct Endpoints {
    entries: Vec<(Vec<char>, String)>,
}

impl Endpoints {
    pub closed spec fn pairs(&self) -> Seq<(Seq<char>, Seq<char>)> {
        self.entries@.map_values(|e: (Vec<char>, String)| (e.0@, e.1@))
    }

    /// The URL serving `suffix`, if the camera offers it.
    pub open spec fn url_for(&self, suffix: Seq<char>) -> Option<Seq<char>> {
        lookup(self.pairs(), suffix)
    }

    /// Each suffix is listed once.
    pub closed spec fn well_formed(&self) -> bool {
        distinct_keys(self.pairs())
    }

    pub fn new() -> (r: Self)
        ensures
            r.well_formed(),
            r.pairs() == Seq::<(Seq<char>, Seq<char>)>::empty(),
            forall|k: Seq<char>| #[trigger] r.url_for(k) is None,
    {
        let r = Endpoints { entries: Vec::new() };
        assert(r.pairs() =~= Seq::<(Seq<char>, Seq<char>)>::empty());
        assert forall|k: Seq<char>| #[trigger] r.url_for(k) is None by {
            assert(r.pairs().len() == 0);
        }
        r
    }

    fn position(&self, key: &[char]) -> (r: Option<usize>)
        ensures
            match r {
                Some(i) => i < self.pairs().len() && self.pairs()[i as int].0 == key@,
                None => forall|j: int| 0 <= j < self.pairs().len() ==> self.pairs()[j].0 != key@,
            },
    {
        let mut i: usize = 0;
        while i < self.entries.len()
            invariant
                i <= self.entries@.len(),
                self.pairs().len() == self.entries@.len(),
                forall|j: int| 0 <= j < i ==> self.pairs()[j].0 != key@,
            decreases self.entries@.len() - i,
        {
            if chars_eq(self.entries[i].0.as_slice(), key) {
                return Some(i);
            }
            i = i + 1;
        }
        None
    }

    /// Map `suffix` to `url`, replacing what it mapped to before.
    pub fn insert(&mut self, suffix: Vec<char>, url: String)
        requires
            old(self).well_formed(),
        ensures
            final(self).well_formed(),
            final(self).pairs() == spec_insert(old(self).pairs(), suffix@, url@),
            forall|k: Seq<char>| #[trigger] final(self).url_for(k) == (if k == suffix@ {
                Some(url@)
            } else {
                old(self).url_for(k)
            }),
    {
        let ghost key = suffix@;
        let ghost u = url@;
        let ghost before = self.pairs();
        match self.position(suffix.as_slice()) {
            Some(i) => {
                self.entries.set(i, (suffix, url));
                proof {
                    assert(self.pairs() =~= before.update(i as int, (key, u)));
                    let j = choose|j: int| 0 <= j < before.len() && #[trigger] before[j].0 == key;
                    assert(before[i as int].0 == key);
                    assert(j == i);
                    assert forall|k: Seq<char>| #[trigger] self.url_for(k) == (if k == key {
                        Some(u)
                    } else {
                        lookup(before, k)
                    }) by {
                        lemma_lookup_update(before, i as int, key, u, k);
                    }
                }
            },
            None => {
                self.entries.push((suffix, url));
                proof {
                    assert(self.pairs() =~= before.push((key, u)));
                    assert(self.pairs().drop_last() =~= before);
                }
            },
        }
    }

    /// The URL serving `suffix`; a camera that does not list it does not offer it.
    pub fn endpoint(&self, suffix: &str) -> (r: CameraResult<&str>)
        ensures
            match self.url_for(suffix@) {
                Some(u) => r is Ok && r->Ok_0@ == u,
                None => r matches Err(CameraError::Unavailable(m)) && m@ == suffix@,
            },
    {
        let key = chars_of(suffix);
        let mut k: usize = self.entries.len();
        let ghost all = self.pairs();
        assert(all.subrange(0, k as int) =~= all);
        while k > 0
            invariant
                k <= self.entries@.len(),
                all == self.pairs(),
                all.len() == self.entries@.len(),
                key@ == suffix@,
                lookup(all, suffix@) == lookup(all.subrange(0, k as int), suffix@),
            decreases k,
        {
            let ghost front = all.subrange(0, k as int);
            assert(front.drop_last() =~= all.subrange(0, k - 1));
            if chars_eq(self.entries[k - 1].0.as_slice(), key.as_slice()) {
                return Ok(self.entries[k - 1].1.as_str());
            }
            k = k - 1;
        }
        Err(CameraError::Unavailable(owned(suffix)))
    }

    /// How many suffixes the camera offers.
    pub fn len(&self) -> (r: usize)
        ensures
            r == self.pairs().len(),
    {
        self.entries.len()
    }

    /// The `i`-th suffix, in the order they were first listed.
    pub fn suffix(&self, i: usize) -> (r: String)
        requires
            i < self.pairs().len(),
        ensures
            r@ == self.pairs()[i as int].0,
    {
        string_from(self.entries[i].0.as_slice())
    }
}

pub open spec fn path_views(paths: Seq<String>) -> Seq<Seq<char>> {
    paths.map_values(|p: String| p@)
}

/// Where the listing's `paths` send `suffix`: the URL of the last path with that suffix. The
/// listing is walked from the oldest version to the newest, so the newest version wins.
pub open spec fn spec_endpoint_for(
    host: Seq<char>,
    port: u16,
    paths: Seq<Seq<char>>,
    suffix: Seq<char>,
) -> Option<Seq<char>>
    decreases paths.len(),
{
    if paths.len() == 0 {
        None
    } else if spec_endpoint_suffix(paths.last()) == Some(suffix) {
        Some(spec_url(host, port, paths.last()))
    } else {
        spec_endpoint_for(host, port, paths.drop_last(), suffix)
    }
}

/// The suffix-to-URL listing `paths` build, one path at a time, in the order the suffixes
/// first appear.
pub open spec fn spec_listing(host: Seq<char>, port: u16, paths: Seq<Seq<char>>) -> Seq<
    (Seq<char>, Seq<char>),
>
    decreases paths.len(),
{
    if paths.len() == 0 {
        Seq::empty()
    } else {
        let before = spec_listing(host, port, paths.drop_last());
        match spec_endpoint_suffix(paths.last()) {
            Some(suffix) => spec_insert(before, suffix, spec_url(host, port, paths.last())),
            None => before,
        }
    }
}

/// Map every endpoint path the camera lists to an absolute URL, keyed by the part of the path
/// after the version segment. `paths` come in the listing's order, oldest version first.
pub fn resolve_endpoints(target: &CameraTarget, paths: &[String]) -> (r: Endpoints)
    ensures
        r.well_formed(),
        r.pairs() == spec_listing(target.host@, target.port, path_views(paths@)),
        forall|suffix: Seq<char>| #[trigger] r.url_for(suffix) == spec_endpoint_for(
            target.host@,
            target.port,
            path_views(paths@),
            suffix,
        ),
{
    let mut endpoints = Endpoints::new();
    let mut k: usize = 0;
    assert(path_views(paths@.subrange(0, 0)).len() == 0);
    while k < paths.len()
        invariant
            k <= paths@.len(),
            endpoints.well_formed(),
            endpoints.pairs() == spec_listing(
                target.host@,
                target.port,
                path_views(paths@.subrange(0, k as int)),
            ),
            forall|suffix: Seq<char>| #[trigger] endpoints.url_for(suffix) == spec_endpoint_for(
                target.host@,
                target.port,
                path_views(paths@.subrange(0, k as int)),
                suffix,
            ),
        decreases paths@.len() - k,
    {
        let ghost front = path_views(paths@.subrange(0, k + 1));
        assert(front.drop_last() =~= path_views(paths@.subrange(0, k as int)));
        assert(front.last() == paths@[k as int]@);
        let path = paths[k].as_str();
        match endpoint_suffix(path) {
            Some(suffix) => {
                let url = url_of(target.host.as_str(), target.port, chars_of(path).as_slice());
                endpoints.insert(chars_of(suffix), url);
            },
            None => {},
        }
        k = k + 1;
    }
    assert(paths@.subrange(0, paths@.len() as int) =~= paths@);
    endpoints
}

// ---------------------------------------------------------------------------------------------
// Frames
// ---------------------------------------------------------------------------------------------

/// The last segment of a path.
pub open spec fn spec_file_name(path: Seq<char>) -> Seq<char> {
    match last_index(path, '/') {
        Some(i) => path.subrange(i + 1, path.len() as int),
        None => path,
    }
}

/// What groups the files of one exposure: the file name without its extension, or the whole
/// path when the name has no extension.
pub open spec fn spec_stem(path: Seq<char>) -> Seq<char> {
    let name = spec_file_name(path);
    match last_index(name, '.') {
        Some(i) => name.subrange(0, i),
        None => path,
    }
}

/// The last segment of a path, as a file name to show.
pub fn file_name(path: &[char]) -> (r: Vec<char>)
    ensures
        r@ == spec_file_name(path@),
{
    let n = path.len();
    match find_last(path, '/') {
        Some(i) => {
            proof {
                crate::text::lemma_last_index(path@, '/');
            }
            copy_range(path, i + 1, n)
        },
        None => copy_range(path, 0, path.len()),
    }
}

fn stem(path: &[char]) -> (r: Vec<char>)
    ensures
        r@ == spec_stem(path@),
{
    let name = file_name(path);
    match find_last(name.as_slice(), '.') {
        Some(i) => {
            proof {
                crate::text::lemma_last_index(name@, '.');
            }
            copy_range(name.as_slice(), 0, i)
        },
        None => copy_range(path, 0, path.len()),
    }
}

/// One exposure, and the JPEG belonging to it if the camera wrote one.
#[derive(Debug, Clone)]
pub struct Frame {
    pub jpeg: Option<String>,
}

pub open spec fn jpeg_of(path: Seq<char>) -> Option<Seq<char>> {
    if spec_is_jpeg_path(path) {
        Some(path)
    } else {
        None
    }
}

/// Where `stem` first appears among the frames' stems.
pub open spec fn stem_index(frames: Seq<(Seq<char>, Option<Seq<char>>)>, stem: Seq<char>) -> Option<
    int,
>
    decreases frames.len(),
{
    if frames.len() == 0 {
        None
    } else {
        match stem_index(frames.drop_last(), stem) {
            Some(i) => Some(i),
            None => if frames.last().0 == stem {
                Some(frames.len() - 1)
            } else {
                None
            },
        }
    }
}

/// Files grouped into the exposures that produced them, in order of first appearance: a file
/// whose stem is already a frame joins it - bringing its path as the frame's JPEG if the frame
/// has none yet - and any other file starts a new frame.
pub open spec fn spec_frames(paths: Seq<Seq<char>>) -> Seq<(Seq<char>, Option<Seq<char>>)>
    decreases paths.len(),
{
    if paths.len() == 0 {
        Seq::empty()
    } else {
        let before = spec_frames(paths.drop_last());
        let p = paths.last();
        let st = spec_stem(p);
        match stem_index(before, st) {
            Some(i) => before.update(
                i,
                (
                    st,
                    match before[i].1 {
                        Some(j) => Some(j),
                        None => jpeg_of(p),
                    },
                ),
            ),
            None => before.push((st, jpeg_of(p))),
        }
    }
}

pub open spec fn frame_jpegs(frames: Seq<(Seq<char>, Option<Seq<char>>)>) -> Seq<
    Option<Seq<char>>,
> {
    frames.map_values(|f: (Seq<char>, Option<Seq<char>>)| f.1)
}

pub open spec fn frame_views(frames: Seq<Frame>) -> Seq<Option<Seq<char>>> {
    frames.map_values(
        |f: Frame|
            match f.jpeg {
                Some(j) => Some(j@),
                None => None,
            },
    )
}

proof fn lemma_stem_index(frames: Seq<(Seq<char>, Option<Seq<char>>)>, stem: Seq<char>)
    ensures
        stem_index(frames, stem) matches Some(i) ==> 0 <= i < frames.len() && frames[i].0
            == stem && forall|j: int| 0 <= j < i ==> frames[j].0 != stem,
        stem_index(frames, stem) is None ==> forall|j: int|
            0 <= j < frames.len() ==> frames[j].0 != stem,
    decreases frames.len(),
{
    if frames.len() > 0 {
        lemma_stem_index(frames.drop_last(), stem);
        assert forall|j: int| 0 <= j < frames.len() - 1 implies frames.drop_last()[j]
            == frames[j] by {}
    }
}

/// Where `stem` sits among `stems`.
fn find_stem(stems: &Vec<Vec<char>>, stem: &[char]) -> (r: Option<usize>)
    ensures
        match r {
            Some(i) => i < stems@.len() && stems@[i as int]@ == stem@ && forall|j: int|
                0 <= j < i ==> stems@[j]@ != stem@,
            None => forall|j: int| 0 <= j < stems@.len() ==> stems@[j]@ != stem@,
        },
{
    let mut i: usize = 0;
    while i < stems.len()
        invariant
            i <= stems@.len(),
            forall|j: int| 0 <= j < i ==> stems@[j]@ != stem@,
        decreases stems@.len() - i,
    {
        if chars_eq(stems[i].as_slice(), stem) {
            return Some(i);
        }
        i = i + 1;
    }
    None
}

pub open spec fn frame_view(f: Frame) -> Option<Seq<char>> {
    match f.jpeg {
        Some(j) => Some(j@),
        None => None,
    }
}

/// Group added files into the frames that produced them: `IMG_0042.CR3` and `IMG_0042.JPG`
/// are one exposure, so counting files would run a ramp at double speed.
pub fn frames_in(paths: &[String]) -> (r: Vec<Frame>)
    ensures
        frame_views(r@) == frame_jpegs(spec_frames(path_views(paths@))),
{
    let mut stems: Vec<Vec<char>> = Vec::new();
    let mut frames: Vec<Frame> = Vec::new();
    let mut k: usize = 0;
    while k < paths.len()
        invariant
            k <= paths@.len(),
            stems@.len() == frames@.len(),
            spec_frames(path_views(paths@.subrange(0, k as int))).len() == stems@.len(),
            forall|i: int|
                0 <= i < stems@.len() ==> #[trigger] spec_frames(
                    path_views(paths@.subrange(0, k as int)),
                )[i] == (stems@[i]@, frame_view(frames@[i])),
        decreases paths@.len() - k,
    {
        let ghost front = path_views(paths@.subrange(0, k + 1));
        let ghost before = spec_frames(path_views(paths@.subrange(0, k as int)));
        assert(front.drop_last() =~= path_views(paths@.subrange(0, k as int)));
        assert(front.last() == paths@[k as int]@);
        let path = paths[k].as_str();
        let cs = chars_of(path);
        let st = stem(cs.as_slice());
        let jpeg: Option<String> = if is_jpeg_path(path) {
            Some(owned(path))
        } else {
            None
        };
        proof {
            lemma_stem_index(before, st@);
        }
        match find_stem(&stems, st.as_slice()) {
            Some(i) => {
                assert(stem_index(before, st@) == Some(i as int)) by {
                    if let Some(x) = stem_index(before, st@) {
                        if x < i {
                            assert(before[x].0 == stems@[x]@);
                        } else if x > i {
                            assert(before[i as int].0 == stems@[i as int]@);
                        }
                    } else {
                        assert(before[i as int].0 == stems@[i as int]@);
                    }
                }
                assert(before[i as int] == (stems@[i as int]@, frame_view(frames@[i as int])));
                if frames[i].jpeg.is_none() {
                    frames.set(i, Frame { jpeg });
                }
                proof {
                    let now = spec_frames(front);
                    assert forall|x: int| 0 <= x < stems@.len() implies #[trigger] now[x] == (
                        stems@[x]@,
                        frame_view(frames@[x]),
                    ) by {
                        if x != i {
                            assert(before[x] == (stems@[x]@, frame_view(frames@[x])));
                        }
                    }
                }
            },
            None => {
                assert(stem_index(before, st@) is None) by {
                    if let Some(x) = stem_index(before, st@) {
                        assert(before[x].0 == stems@[x]@);
                    }
                }
                stems.push(st);
                frames.push(Frame { jpeg });
                proof {
                    let now = spec_frames(front);
                    assert forall|x: int| 0 <= x < stems@.len() implies #[trigger] now[x] == (
                        stems@[x]@,
                        frame_view(frames@[x]),
                    ) by {
                        if x < stems@.len() - 1 {
                            assert(before[x] == (stems@[x]@, frame_view(frames@[x])));
                        }
                    }
                }
            },
        }
        k = k + 1;
    }
    assert(paths@.subrange(0, paths@.len() as int) =~= paths@);
    assert(frame_views(frames@) =~= frame_jpegs(spec_frames(path_views(paths@))));
    frames
}

/// Whether some frame carries `stem`.
pub open spec fn has_frame(frames: Seq<(Seq<char>, Option<Seq<char>>)>, stem: Seq<char>) -> bool {
    exists|j: int| 0 <= j < frames.len() && frames[j].0 == stem
}

/// Whether some path has `stem`.
pub open spec fn some_path_has(paths: Seq<Seq<char>>, stem: Seq<char>) -> bool {
    exists|i: int| 0 <= i < paths.len() && spec_stem(paths[i]) == stem
}

proof fn lemma_frames_step(paths: Seq<Seq<char>>)
    requires
        paths.len() > 0,
    ensures
        ({
            let before = spec_frames(paths.drop_last());
            let now = spec_frames(paths);
            let st = spec_stem(paths.last());
            &&& forall|j: int| 0 <= j < before.len() ==> #[trigger] now[j].0 == before[j].0
            &&& stem_index(before, st) is None ==> now.len() == before.len() + 1
                && now[before.len() as int].0 == st
            &&& stem_index(before, st) matches Some(x) ==> now.len() == before.len() && now[x].0
                == st
        }),
{
    let before = spec_frames(paths.drop_last());
    lemma_stem_index(before, spec_stem(paths.last()));
}

proof fn lemma_frames_distinct(paths: Seq<Seq<char>>)
    ensures
        forall|a: int, b: int|
            0 <= a < b < spec_frames(paths).len() ==> #[trigger] spec_frames(paths)[a].0
                != #[trigger] spec_frames(paths)[b].0,
    decreases paths.len(),
{
    if paths.len() > 0 {
        lemma_frames_distinct(paths.drop_last());
        lemma_frames_step(paths);
        let before = spec_frames(paths.drop_last());
        lemma_stem_index(before, spec_stem(paths.last()));
        let now = spec_frames(paths);
        assert forall|a: int, b: int| 0 <= a < b < now.len() implies #[trigger] now[a].0
            != #[trigger] now[b].0 by {
            if b < before.len() {
                assert(now[a].0 == before[a].0 && now[b].0 == before[b].0);
            } else {
                assert(now[a].0 == before[a].0);
            }
        }
    }
}

proof fn lemma_frames_cover(paths: Seq<Seq<char>>)
    ensures
        forall|i: int|
            0 <= i < paths.len() ==> #[trigger] has_frame(spec_frames(paths), spec_stem(paths[i])),
    decreases paths.len(),
{
    if paths.len() > 0 {
        let rest = paths.drop_last();
        lemma_frames_cover(rest);
        lemma_frames_step(paths);
        let before = spec_frames(rest);
        let now = spec_frames(paths);
        let st = spec_stem(paths.last());
        lemma_stem_index(before, st);
        assert forall|i: int| 0 <= i < paths.len() implies #[trigger] has_frame(
            now,
            spec_stem(paths[i]),
        ) by {
            if i < paths.len() - 1 {
                assert(paths[i] == rest[i]);
                assert(has_frame(before, spec_stem(rest[i])));
                let j = choose|j: int| 0 <= j < before.len() && before[j].0 == spec_stem(rest[i]);
                assert(now[j].0 == before[j].0);
            } else {
                assert(paths[i] == paths.last());
                match stem_index(before, st) {
                    Some(x) => assert(0 <= x < now.len() && now[x].0 == st),
                    None => assert(now[before.len() as int].0 == st),
                }
            }
        }
    }
}

proof fn lemma_frames_origin(paths: Seq<Seq<char>>)
    ensures
        forall|j: int|
            0 <= j < spec_frames(paths).len() ==> #[trigger] some_path_has(
                paths,
                spec_frames(paths)[j].0,
            ),
    decreases paths.len(),
{
    if paths.len() > 0 {
        let rest = paths.drop_last();
        lemma_frames_origin(rest);
        lemma_frames_step(paths);
        let before = spec_frames(rest);
        let now = spec_frames(paths);
        let st = spec_stem(paths.last());
        assert forall|j: int| 0 <= j < now.len() implies #[trigger] some_path_has(
            paths,
            now[j].0,
        ) by {
            if j < before.len() {
                assert(now[j].0 == before[j].0);
                assert(some_path_has(rest, before[j].0));
                let i = choose|i: int| 0 <= i < rest.len() && spec_stem(rest[i]) == before[j].0;
                assert(paths[i] == rest[i]);
            } else {
                assert(now[j].0 == st);
                assert(spec_stem(paths[paths.len() - 1]) == st);
            }
        }
    }
}

/// Grouping files into frames gives one frame per distinct stem: no two frames share a stem,
/// every file's stem is some frame's, and every frame's stem is some file's. A RAW and its JPEG
/// are therefore one frame, and two exposures are two.
pub proof fn one_frame_per_stem(paths: Seq<Seq<char>>)
    ensures
        forall|a: int, b: int|
            0 <= a < b < spec_frames(paths).len() ==> #[trigger] spec_frames(paths)[a].0
                != #[trigger] spec_frames(paths)[b].0,
        forall|i: int|
            0 <= i < paths.len() ==> #[trigger] has_frame(spec_frames(paths), spec_stem(paths[i])),
        forall|j: int|
            0 <= j < spec_frames(paths).len() ==> #[trigger] some_path_has(
                paths,
                spec_frames(paths)[j].0,
            ),
{
    lemma_frames_distinct(paths);
    lemma_frames_cover(paths);
    lemma_frames_origin(paths);
}

/// The first of `paths` that has stem `stem` and names a JPEG, if any does.
pub open spec fn first_jpeg(paths: Seq<Seq<char>>, stem: Seq<char>) -> Option<Seq<char>>
    decreases paths.len(),
{
    if paths.len() == 0 {
        None
    } else {
        match first_jpeg(paths.drop_last(), stem) {
            Some(p) => Some(p),
            None => if spec_stem(paths.last()) == stem && spec_is_jpeg_path(paths.last()) {
                Some(paths.last())
            } else {
                None
            },
        }
    }
}

proof fn lemma_first_jpeg_has_stem(paths: Seq<Seq<char>>, stem: Seq<char>)
    ensures
        first_jpeg(paths, stem) is Some ==> some_path_has(paths, stem),
    decreases paths.len(),
{
    if paths.len() > 0 {
        let rest = paths.drop_last();
        lemma_first_jpeg_has_stem(rest, stem);
        if first_jpeg(rest, stem) is Some {
            let i = choose|i: int| 0 <= i < rest.len() && spec_stem(rest[i]) == stem;
            assert(paths[i] == rest[i]);
        } else if first_jpeg(paths, stem) is Some {
            assert(spec_stem(paths[paths.len() - 1]) == stem);
        }
    }
}

/// Whether `path` names a JPEG of the exposure `stem`.
pub open spec fn jpeg_with_stem(path: Seq<char>, stem: Seq<char>) -> bool {
    spec_stem(path) == stem && spec_is_jpeg_path(path)
}

proof fn lemma_first_jpeg_is_first(paths: Seq<Seq<char>>, stem: Seq<char>)
    ensures
        first_jpeg(paths, stem) is None <==> forall|i: int|
            0 <= i < paths.len() ==> !#[trigger] jpeg_with_stem(paths[i], stem),
        first_jpeg(paths, stem) is Some ==> exists|i: int|
            0 <= i < paths.len() && paths[i] == first_jpeg(paths, stem)->0 && #[trigger]
            jpeg_with_stem(paths[i], stem) && forall|k: int|
                0 <= k < i ==> !#[trigger] jpeg_with_stem(paths[k], stem),
    decreases paths.len(),
{
    if paths.len() > 0 {
        let rest = paths.drop_last();
        let n = paths.len() - 1;
        lemma_first_jpeg_is_first(rest, stem);
        assert forall|k: int| 0 <= k < n implies paths[k] == rest[k] by {}
        if first_jpeg(rest, stem) is Some {
            let i = choose|i: int|
                0 <= i < rest.len() && rest[i] == first_jpeg(rest, stem)->0 && #[trigger]
                jpeg_with_stem(rest[i], stem) && forall|k: int|
                    0 <= k < i ==> !#[trigger] jpeg_with_stem(rest[k], stem);
            assert(paths[i] == rest[i]);
            assert forall|k: int| 0 <= k < i implies !#[trigger] jpeg_with_stem(paths[k], stem) by {
                assert(paths[k] == rest[k]);
            }
        } else if jpeg_with_stem(paths[n], stem) {
            assert(paths.last() == paths[n]);
            assert forall|k: int| 0 <= k < n implies !#[trigger] jpeg_with_stem(paths[k], stem) by {
                assert(paths[k] == rest[k]);
            }
        } else {
            assert(paths.last() == paths[n]);
            assert forall|i: int| 0 <= i < paths.len() implies !#[trigger] jpeg_with_stem(
                paths[i],
                stem,
            ) by {
                if i < n {
                    assert(paths[i] == rest[i]);
                }
            }
        }
    }
}

/// The JPEG a frame offers for its preview is the first of the listed files that is a JPEG of
/// that frame's exposure, whatever order the RAW and the JPEG were listed in: a frame offers one
/// exactly when some file of its stem is a JPEG, and a RAW listed after the JPEG does not take
/// it away.
pub proof fn each_frame_offers_its_first_jpeg(paths: Seq<Seq<char>>)
    ensures
        forall|j: int|
            0 <= j < spec_frames(paths).len() ==> #[trigger] spec_frames(paths)[j].1 == first_jpeg(
                paths,
                spec_frames(paths)[j].0,
            ),
        forall|j: int|
            0 <= j < spec_frames(paths).len() ==> (#[trigger] spec_frames(paths)[j].1 is Some
                <==> exists|i: int|
                0 <= i < paths.len() && #[trigger] jpeg_with_stem(
                    paths[i],
                    spec_frames(paths)[j].0,
                )),
        forall|j: int|
            0 <= j < spec_frames(paths).len() && #[trigger] spec_frames(paths)[j].1 is Some
                ==> exists|i: int|
                0 <= i < paths.len() && paths[i] == spec_frames(paths)[j].1->0 && #[trigger]
                jpeg_with_stem(paths[i], spec_frames(paths)[j].0) && forall|k: int|
                    0 <= k < i ==> !#[trigger] jpeg_with_stem(paths[k], spec_frames(paths)[j].0),
{
    lemma_frames_first_jpeg(paths);
    assert forall|j: int| 0 <= j < spec_frames(paths).len() implies (
    #[trigger] spec_frames(paths)[j].1 is Some <==> exists|i: int|
        0 <= i < paths.len() && #[trigger] jpeg_with_stem(paths[i], spec_frames(paths)[j].0)) by {
        lemma_first_jpeg_is_first(paths, spec_frames(paths)[j].0);
    }
    assert forall|j: int|
        0 <= j < spec_frames(paths).len() && #[trigger] spec_frames(paths)[j].1 is Some implies exists|i: int|
        0 <= i < paths.len() && paths[i] == spec_frames(paths)[j].1->0 && #[trigger]
        jpeg_with_stem(paths[i], spec_frames(paths)[j].0) && forall|k: int|
            0 <= k < i ==> !#[trigger] jpeg_with_stem(paths[k], spec_frames(paths)[j].0) by {
        lemma_first_jpeg_is_first(paths, spec_frames(paths)[j].0);
    }
}

proof fn lemma_frames_first_jpeg(paths: Seq<Seq<char>>)
    ensures
        forall|j: int|
            0 <= j < spec_frames(paths).len() ==> #[trigger] spec_frames(paths)[j].1 == first_jpeg(
                paths,
                spec_frames(paths)[j].0,
            ),
    decreases paths.len(),
{
    if paths.len() > 0 {
        let rest = paths.drop_last();
        let p = paths.last();
        let st = spec_stem(p);
        let before = spec_frames(rest);
        let now = spec_frames(paths);
        lemma_frames_first_jpeg(rest);
        lemma_frames_distinct(rest);
        lemma_frames_cover(rest);
        lemma_stem_index(before, st);
        assert forall|j: int| 0 <= j < now.len() implies #[trigger] now[j].1 == first_jpeg(
            paths,
            now[j].0,
        ) by {
            match stem_index(before, st) {
                None => {
                    if j < before.len() {
                        assert(now[j] == before[j]);
                        assert(before[j].0 != st);
                    } else {
                        assert(j == before.len());
                        assert(now[j] == (st, jpeg_of(p)));
                        lemma_first_jpeg_has_stem(rest, st);
                        if first_jpeg(rest, st) is Some {
                            let i = choose|i: int| 0 <= i < rest.len() && spec_stem(rest[i]) == st;
                            assert(has_frame(before, spec_stem(rest[i])));
                            let k = choose|k: int| 0 <= k < before.len() && before[k].0 == st;
                            assert(before[k].0 != st);
                        }
                    }
                },
                Some(x) => {
                    if j == x {
                        assert(before[x].1 == first_jpeg(rest, st));
                    } else {
                        assert(now[j] == before[j]);
                        if before[j].0 == st {
                            if j < x {
                                assert(before[j].0 != before[x].0);
                            } else {
                                assert(before[x].0 != before[j].0);
                            }
                        }
                    }
                },
            }
        }
    }
}

// ---------------------------------------------------------------------------------------------
// The polling endpoint
// ---------------------------------------------------------------------------------------------

/// What the camera has done since it was last asked, as far as this backend acts on it: the
/// files it added, and whether it reported each of the three dials.
#[derive(Debug, Clone)]
pub struct PollingResponse {
    pub addedcontents: Vec<String>,
    pub tv: bool,
    pub av: bool,
    pub iso: bool,
}

pub open spec fn spec_changed_dials(tv: bool, av: bool, iso: bool) -> Seq<Dial> {
    (if tv {
        seq![Dial::Shutter]
    } else {
        Seq::empty()
    }) + (if av {
        seq![Dial::Aperture]
    } else {
        Seq::empty()
    }) + (if iso {
        seq![Dial::Iso]
    } else {
        Seq::empty()
    })
}

impl PollingResponse {
    /// The dials the camera says have moved, in screen order.
    pub fn changed_dials(&self) -> (r: Vec<Dial>)
        ensures
            r@ == spec_changed_dials(self.tv, self.av, self.iso),
    {
        let mut r: Vec<Dial> = Vec::new();
        if self.tv {
            r.push(Dial::Shutter);
        }
        if self.av {
            r.push(Dial::Aperture);
        }
        if self.iso {
            r.push(Dial::Iso);
        }
        assert(r@ =~= spec_changed_dials(self.tv, self.av, self.iso));
        r
    }

    /// Whether the camera reported nothing this backend cares about.
    pub fn is_quiet(&self) -> (r: bool)
        ensures
            r == (self.addedcontents@.len() == 0 && !self.tv && !self.av && !self.iso),
    {
        self.addedcontents.len() == 0 && !self.tv && !self.av && !self.iso
    }
}

/// What one answer from the polling endpoint calls for.
pub struct Reaction {
    /// This is the first thing the camera said: worth logging whole, once.
    pub describe: bool,
    /// Files that were already on the card when watching began, announced as none.
    pub already_on_card: usize,
    /// Frames to announce, each with the JPEG to fetch if it has one.
    pub frames: Vec<Frame>,
    /// Dials to announce as changed.
    pub dials: Vec<Dial>,
}

/// The watcher's memory between polls.
///
/// The first answer is not a report of what changed but the camera describing itself, files
/// already on the card included; it sets the baseline and announces no frame.
pub struct Watch {
    baseline: bool,
    described: bool,
    complained: bool,
}

impl Watch {
    /// The next answer that says anything sets the baseline.
    pub closed spec fn awaiting_baseline(&self) -> bool {
        self.baseline
    }

    pub closed spec fn has_described(&self) -> bool {
        self.described
    }

    pub closed spec fn has_complained(&self) -> bool {
        self.complained
    }

    pub fn new() -> (r: Self)
        ensures
            r.awaiting_baseline(),
            !r.has_described(),
            !r.has_complained(),
    {
        Watch { baseline: true, described: false, complained: false }
    }

    /// A poll failed. Says whether to report it loudly: the first time only, since a poll that
    /// fails every time is why no frame is ever noticed.
    pub fn failed(&mut self) -> (loud: bool)
        ensures
            loud == !old(self).has_complained(),
            final(self).has_complained(),
            final(self).awaiting_baseline() == old(self).awaiting_baseline(),
            final(self).has_described() == old(self).has_described(),
    {
        let loud = !self.complained;
        self.complained = true;
        loud
    }

    /// An answer arrived.
    pub fn answered(&mut self, answer: &PollingResponse) -> (r: Option<Reaction>)
        ensures
            final(self).has_complained() == old(self).has_complained(),
            answer.addedcontents@.len() == 0 && !answer.tv && !answer.av && !answer.iso ==> r
                is None && final(self).awaiting_baseline() == old(self).awaiting_baseline()
                && final(self).has_described() == old(self).has_described(),
            !(answer.addedcontents@.len() == 0 && !answer.tv && !answer.av && !answer.iso) ==> (
            r matches Some(re) && re.describe == !old(self).has_described() && final(self).has_described() && !final(self).awaiting_baseline() && re.dials@
                == spec_changed_dials(answer.tv, answer.av, answer.iso) && (if old(self).awaiting_baseline() {
                re.frames@.len() == 0 && re.already_on_card == answer.addedcontents@.len()
            } else {
                re.already_on_card == 0 && frame_views(re.frames@) == frame_jpegs(
                    spec_frames(path_views(answer.addedcontents@)),
                )
            })),
    {
        if answer.is_quiet() {
            return None;
        }
        let describe = !self.described;
        self.described = true;
        let (frames, already_on_card) = if self.baseline {
            self.baseline = false;
            (Vec::new(), answer.addedcontents.len())
        } else {
            (frames_in(answer.addedcontents.as_slice()), 0)
        };
        Some(Reaction { describe, already_on_card, frames, dials: answer.changed_dials() })
    }
}

// ---------------------------------------------------------------------------------------------
// Renditions
// ---------------------------------------------------------------------------------------------

/// Which copy of a picture to ask the camera for.
#[derive(Debug, Clone, Copy, PartialEq, Eq, Structural)]
pub enum Rendition {
    /// The camera's own downsized JPEG: a few hundred kilobytes, all a preview needs.
    Display,
    /// The file itself, for a body that will not downsize an already small JPEG.
    Main,
}

pub open spec fn spec_rendition_kind(r: Rendition) -> Seq<char> {
    match r {
        Rendition::Display => "display"@,
        Rendition::Main => "main"@,
    }
}

impl Rendition {
    /// The `kind` query parameter naming it.
    pub fn kind(self) -> (r: &'static str)
        ensures
            r@ == spec_rendition_kind(self),
    {
        match self {
            Rendition::Display => "display",
            Rendition::Main => "main",
        }
    }
}

/// Whether a failed download calls for the file itself: a body that will not make a display
/// copy answers 400, and the file is then the only rendition there is.
pub fn falls_back(wanted: Rendition, err: &CameraError) -> (r: bool)
    ensures
        r == (wanted == Rendition::Display && (err matches CameraError::Rejected { status, .. }
            && status == 400)),
{
    match err {
        CameraError::Rejected { status, .. } => wanted == Rendition::Display && *status == 400,
        _ => false,
    }
}

} // verus!
