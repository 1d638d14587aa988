//! Trust on first use of server certificates: the store of the fingerprints
//! seen for each host, the check of a certificate that a server presents,
//! and the text file in which the store is kept.

use vstd::prelude::*;
use vstd::rwlock::{RwLock, RwLockPredicate};
use std::sync::Arc;
use crate::decimal::{i64_text, i64_to_text, lemma_i64_text_round_trip, parse_i64, parse_i64_chars};
use crate::text::{
    chars_from, chars_of, chars_until, char_lines, find_char, first_index_of, is_first_index,
    lemma_first_index_at, lines, lines_of, push_char, string_from_chars, strip_cr,
};

verus! {

// ---------------------------------------------------------------------------
// Calls into outside code
// ---------------------------------------------------------------------------

/// The SHA-256 digest of `data`.
pub uninterp spec fn sha256(data: Seq<u8>) -> Seq<u8>;

/// ring's `digest::digest` with `digest::SHA256`. Its result is named by
/// `sha256`; ring documents that a SHA-256 digest is 32 bytes long.
#[verifier::external_body]
fn sha256_digest(data: &[u8]) -> (d: Vec<u8>)
    ensures
        d@ == sha256(data@),
        d@.len() == 32,
{
    ring::digest::digest(&ring::digest::SHA256, data).as_ref().to_vec()
}

/// The hexadecimal digit of `n`, for `0 <= n < 16`, in upper case.
pub open spec fn hex_digit(n: int) -> char {
    if n < 10 {
        crate::decimal::digit_char(n)
    } else if n == 10 {
        'A'
    } else if n == 11 {
        'B'
    } else if n == 12 {
        'C'
    } else if n == 13 {
        'D'
    } else if n == 14 {
        'E'
    } else {
        'F'
    }
}

/// Base16 in upper case: two digits for each byte, the high half first.
pub open spec fn hex_upper(b: Seq<u8>) -> Seq<char>
    decreases b.len(),
{
    if b.len() == 0 {
        seq![]
    } else {
        hex_upper(b.drop_last()) + seq![hex_digit(b.last() as int / 16), hex_digit(b.last() as int % 16)]
    }
}

/// data-encoding's `HEXUPPER.encode`: base16 with the symbols `0-9A-F`
/// (RFC 4648), as its documentation gives it. It may panic on inputs longer
/// than `usize::MAX / 512` bytes (its `encode_len` asserts so), which
/// `requires` leaves out.
#[verifier::external_body]
fn encode_hex_upper(data: &[u8]) -> (s: String)
    requires
        data@.len() <= usize::MAX / 512,
    ensures
        s@ == hex_upper(data@),
{
    data_encoding::HEXUPPER.encode(data)
}

/// The lower-case form of `s`, by the Unicode `Lowercase` mapping.
pub uninterp spec fn lowercase(s: Seq<char>) -> Seq<char>;

/// Every character of `s` is ASCII.
pub open spec fn all_ascii(s: Seq<char>) -> bool {
    forall|i: int| 0 <= i < s.len() ==> (#[trigger] s[i] as u32) < 128
}

/// The character `c` with `A-Z` turned into `a-z`.
pub open spec fn ascii_lower_char(c: char) -> char {
    if 'A' <= c && c <= 'Z' {
        ((c as u32) + 32) as char
    } else {
        c
    }
}

/// `s` with `A-Z` turned into `a-z`.
pub open spec fn ascii_lowercase(s: Seq<char>) -> Seq<char> {
    s.map_values(|c: char| ascii_lower_char(c))
}

/// The key a host name is stored under: its lower-case form, which for an
/// ASCII name only turns `A-Z` into `a-z`.
pub open spec fn host_key(h: Seq<char>) -> Seq<char> {
    if all_ascii(h) {
        ascii_lowercase(h)
    } else {
        lowercase(h)
    }
}

/// The key of an ASCII host name is ASCII and is its own key.
pub proof fn lemma_ascii_host_key_stable(h: Seq<char>)
    requires
        all_ascii(h),
    ensures
        all_ascii(host_key(h)),
        host_key(host_key(h)) == host_key(h),
{
    let k = ascii_lowercase(h);
    assert forall|i: int| 0 <= i < k.len() implies (#[trigger] k[i] as u32) < 128 by {
        assert(k[i] == ascii_lower_char(h[i]));
        assert((h[i] as u32) < 128);
    }
    assert(ascii_lowercase(k) =~= k) by {
        assert forall|i: int| 0 <= i < k.len() implies ascii_lowercase(k)[i] == k[i] by {
            assert(k[i] == ascii_lower_char(h[i]));
        }
    }
}

/// std's `str::to_lowercase`. Its result is named by `lowercase`; for ASCII
/// text the Unicode mapping only turns `A-Z` into `a-z`, which is stated. What
/// it does to other characters is left unsaid.
#[verifier::external_body]
fn to_lowercase(s: &str) -> (r: String)
    ensures
        r@ == lowercase(s@),
        all_ascii(s@) ==> r@ == ascii_lowercase(s@),
{
    s.to_lowercase()
}

/// The validity period of the DER certificate `der`, as UNIX timestamps
/// (not before, not after), or `None` where it does not parse.
pub uninterp spec fn certificate_validity(der: Seq<u8>) -> Option<(i64, i64)>;

/// x509-parser's `parse_x509_certificate`, and of what it parses the two
/// bounds of `validity()` by `ASN1Time::timestamp`. The result is named by
/// `certificate_validity`.
#[verifier::external_body]
fn read_validity(der: &[u8]) -> (r: Option<(i64, i64)>)
    ensures
        r == certificate_validity(der@),
{
    match x509_parser::parse_x509_certificate(der) {
        Ok((_, cert)) => Some(
            (cert.validity().not_before.timestamp(), cert.validity().not_after.timestamp()),
        ),
        Err(_) => None,
    }
}

/// The DER certificate `der` parses and its signature verifies with its own
/// public key.
pub uninterp spec fn certificate_signature_verifies(der: Seq<u8>) -> bool;

/// x509-parser's `X509Certificate::verify_signature(None)` on what
/// `parse_x509_certificate` makes of `der`. The result is named by
/// `certificate_signature_verifies`.
#[verifier::external_body]
fn check_signature(der: &[u8]) -> (b: bool)
    ensures
        b == certificate_signature_verifies(der@),
{
    match x509_parser::parse_x509_certificate(der) {
        Ok((_, cert)) => cert.verify_signature(None).is_ok(),
        Err(_) => false,
    }
}

/// x509-parser's `ASN1Time::now`, as a UNIX timestamp. The clock decides the
/// result, so nothing is stated of it.
#[verifier::external_body]
fn current_time() -> (t: i64) {
    x509_parser::time::ASN1Time::now().timestamp()
}

// ---------------------------------------------------------------------------
// The store
// ---------------------------------------------------------------------------

/// The certificate last trusted for a host: its fingerprint and when it
/// expires (a UNIX timestamp).
pub struct StoredCertificate {
    pub fingerprint: String,
    pub not_after: i64,
}

impl View for StoredCertificate {
    type V = (Seq<char>, i64);

    open spec fn view(&self) -> (Seq<char>, i64) {
        (self.fingerprint@, self.not_after)
    }
}

/// A host and the certificate trusted for it.
pub open spec fn entry_view(e: (String, StoredCertificate)) -> (Seq<char>, (Seq<char>, i64)) {
    (e.0@, e.1@)
}

/// No host occurs twice.
pub open spec fn unique_hosts(s: Seq<(Seq<char>, (Seq<char>, i64))>) -> bool {
    forall|i: int, j: int|
        0 <= i < s.len() && 0 <= j < s.len() && i != j ==> #[trigger] s[i].0 != #[trigger] s[j].0
}

/// The host `k` occurs in `s`.
pub open spec fn has_host(s: Seq<(Seq<char>, (Seq<char>, i64))>, k: Seq<char>) -> bool {
    exists|i: int| 0 <= i < s.len() && #[trigger] s[i].0 == k
}

/// The map from each host of `s` to its certificate.
pub open spec fn entries_map(s: Seq<(Seq<char>, (Seq<char>, i64))>) -> Map<
    Seq<char>,
    (Seq<char>, i64),
> {
    Map::new(
        |k: Seq<char>| has_host(s, k),
        |k: Seq<char>| s[choose|i: int| 0 <= i < s.len() && #[trigger] s[i].0 == k].1,
    )
}

proof fn lemma_entries_map_at(s: Seq<(Seq<char>, (Seq<char>, i64))>, i: int)
    requires
        unique_hosts(s),
        0 <= i < s.len(),
    ensures
        entries_map(s).contains_key(s[i].0),
        entries_map(s)[s[i].0] == s[i].1,
{
    assert(has_host(s, s[i].0));
    let j: int = choose|j: int| 0 <= j < s.len() && #[trigger] s[j].0 == s[i].0;
    assert(s[j].0 == s[i].0);
}

proof fn lemma_entries_map_push(s: Seq<(Seq<char>, (Seq<char>, i64))>, e: (Seq<char>, (Seq<char>, i64)))
    requires
        unique_hosts(s),
        !has_host(s, e.0),
    ensures
        unique_hosts(s.push(e)),
        entries_map(s.push(e)) == entries_map(s).insert(e.0, e.1),
{
    let t = s.push(e);
    assert forall|i: int, j: int|
        0 <= i < t.len() && 0 <= j < t.len() && i != j implies #[trigger] t[i].0 != #[trigger] t[j].0 by {
        if i < s.len() && j < s.len() {
            assert(t[i] == s[i] && t[j] == s[j]);
        } else if i < s.len() {
            assert(t[i] == s[i]);
        } else {
            assert(t[j] == s[j]);
        }
    }
    let m = entries_map(s).insert(e.0, e.1);
    assert forall|k: Seq<char>| #[trigger] entries_map(t).contains_key(k) <==> m.contains_key(k) by {
        if has_host(s, k) {
            let i: int = choose|i: int| 0 <= i < s.len() && #[trigger] s[i].0 == k;
            assert(t[i] == s[i]);
        }
        if has_host(t, k) && k != e.0 {
            let i: int = choose|i: int| 0 <= i < t.len() && #[trigger] t[i].0 == k;
            assert(t[i] == s[i]);
        }
        assert(t[s.len() as int] == e);
    }
    assert forall|k: Seq<char>| #[trigger] entries_map(t).contains_key(k) implies entries_map(t)[k] == m[k] by {
        if k == e.0 {
            assert(t[s.len() as int] == e);
            lemma_entries_map_at(t, s.len() as int);
        } else {
            let i: int = choose|i: int| 0 <= i < t.len() && #[trigger] t[i].0 == k;
            assert(t[i] == s[i]);
            lemma_entries_map_at(t, i);
            lemma_entries_map_at(s, i);
        }
    }
    assert(entries_map(t) =~= m);
}

proof fn lemma_entries_map_update(s: Seq<(Seq<char>, (Seq<char>, i64))>, i: int, v: (Seq<char>, i64))
    requires
        unique_hosts(s),
        0 <= i < s.len(),
    ensures
        unique_hosts(s.update(i, (s[i].0, v))),
        entries_map(s.update(i, (s[i].0, v))) == entries_map(s).insert(s[i].0, v),
{
    let t = s.update(i, (s[i].0, v));
    assert forall|a: int, b: int|
        0 <= a < t.len() && 0 <= b < t.len() && a != b implies #[trigger] t[a].0 != #[trigger] t[b].0 by {
        assert(t[a].0 == s[a].0 && t[b].0 == s[b].0);
    }
    let m = entries_map(s).insert(s[i].0, v);
    assert forall|k: Seq<char>| #[trigger] entries_map(t).contains_key(k) <==> m.contains_key(k) by {
        if has_host(s, k) {
            let j: int = choose|j: int| 0 <= j < s.len() && #[trigger] s[j].0 == k;
            assert(t[j].0 == s[j].0);
        }
        if has_host(t, k) {
            let j: int = choose|j: int| 0 <= j < t.len() && #[trigger] t[j].0 == k;
            assert(t[j].0 == s[j].0);
        }
    }
    assert forall|k: Seq<char>| #[trigger] entries_map(t).contains_key(k) implies entries_map(t)[k] == m[k] by {
        let j: int = choose|j: int| 0 <= j < t.len() && #[trigger] t[j].0 == k;
        assert(t[j].0 == s[j].0);
        lemma_entries_map_at(t, j);
        lemma_entries_map_at(s, j);
    }
    assert(entries_map(t) =~= m);
}

/// The hosts whose servers were trusted, each with the certificate trusted
/// for it, and the file in which they are kept.
pub struct CertificateMap {
    stored_certificates: Vec<(String, StoredCertificate)>,
    path_to_file: String,
}

impl View for CertificateMap {
    type V = Map<Seq<char>, (Seq<char>, i64)>;

    closed spec fn view(&self) -> Map<Seq<char>, (Seq<char>, i64)> {
        entries_map(self.entries())
    }
}

/// What the check of a certificate did to the store.
#[derive(Debug, PartialEq, Eq, Structural, Clone, Copy)]
pub enum CertificateMatch {
    /// The host was known with this very certificate; nothing changed.
    Unchanged,
    /// The host was known with another certificate that has not expired yet;
    /// the stored one is kept, and the new one may be an impostor's.
    Suspicious,
    /// The host was known with another certificate that has expired; the new
    /// one takes its place.
    Replaced,
    /// The host was not known; the new certificate is stored for it.
    Added,
}

/// Why a certificate was refused.
#[derive(Debug, PartialEq, Eq, Structural, Clone, Copy)]
pub enum VerifyError {
    /// The certificate is not well-formed DER.
    BadDer,
    /// The certificate is not valid at the time of the check.
    CertExpired,
    /// The certificate's signature does not verify with its own key.
    InvalidSignature,
}

/// The step of trust on first use: `host` presents a certificate with
/// fingerprint `fp` that expires at `not_after`, at time `now`. A known host
/// keeps its certificate while it has not expired, unless the new one is the
/// same; an unknown host is stored under its lower-case name.
pub open spec fn tofu_step(
    m: Map<Seq<char>, (Seq<char>, i64)>,
    host: Seq<char>,
    fp: Seq<char>,
    not_after: i64,
    now: i64,
) -> (Map<Seq<char>, (Seq<char>, i64)>, CertificateMatch) {
    if m.contains_key(host) {
        if m[host].0 == fp {
            (m, CertificateMatch::Unchanged)
        } else if now < m[host].1 {
            (m, CertificateMatch::Suspicious)
        } else {
            (m.insert(host, (fp, not_after)), CertificateMatch::Replaced)
        }
    } else {
        (m.insert(host_key(host), (fp, not_after)), CertificateMatch::Added)
    }
}

/// The fingerprint of a DER certificate: its SHA-256 digest in upper-case
/// hexadecimal.
pub open spec fn fingerprint(der: Seq<u8>) -> Seq<char> {
    hex_upper(sha256(der))
}

/// The check of the certificate `der` that the server of `hostname`
/// presents, at time `now`: it must parse, be valid at `now` and carry a
/// signature that verifies; then trust on first use runs on the lower-case
/// host name and the certificate's fingerprint and expiry.
pub open spec fn verify_step(
    m: Map<Seq<char>, (Seq<char>, i64)>,
    hostname: Seq<char>,
    der: Seq<u8>,
    now: i64,
) -> (Map<Seq<char>, (Seq<char>, i64)>, Result<CertificateMatch, VerifyError>) {
    match certificate_validity(der) {
        None => (m, Err(VerifyError::BadDer)),
        Some((not_before, not_after)) => if !(not_before <= now && now < not_after) {
            (m, Err(VerifyError::CertExpired))
        } else if !certificate_signature_verifies(der) {
            (m, Err(VerifyError::InvalidSignature))
        } else {
            let (m2, o) = tofu_step(m, host_key(hostname), fingerprint(der), not_after, now);
            (m2, Ok(o))
        },
    }
}

/// Trust on first use changes nothing but what is stored for the host
/// itself (or, for a new host, its lower-case name).
pub proof fn lemma_tofu_other_hosts(
    m: Map<Seq<char>, (Seq<char>, i64)>,
    host: Seq<char>,
    fp: Seq<char>,
    not_after: i64,
    now: i64,
    k: Seq<char>,
)
    requires
        k != host,
        k != host_key(host),
    ensures
        tofu_step(m, host, fp, not_after, now).0.contains_key(k) == m.contains_key(k),
        m.contains_key(k) ==> tofu_step(m, host, fp, not_after, now).0[k] == m[k],
{
}

/// While the certificate stored for a host has not expired, no certificate
/// that its server presents changes the store.
pub proof fn lemma_unexpired_certificate_kept(
    m: Map<Seq<char>, (Seq<char>, i64)>,
    hostname: Seq<char>,
    der: Seq<u8>,
    now: i64,
)
    requires
        m.contains_key(host_key(hostname)),
        now < m[host_key(hostname)].1,
    ensures
        verify_step(m, hostname, der, now).0 == m,
{
}

/// A certificate that was accepted for a host is accepted again, with
/// nothing changed, whenever it is still valid, as long as the key of the
/// host's key is that key itself (as every ASCII name's is, by
/// `lemma_ascii_host_key_stable`).
pub proof fn lemma_accepted_certificate_stays(
    m: Map<Seq<char>, (Seq<char>, i64)>,
    hostname: Seq<char>,
    der: Seq<u8>,
    first: i64,
    later: i64,
)
    requires
        host_key(host_key(hostname)) == host_key(hostname),
        verify_step(m, hostname, der, first).1 matches Ok(o) && o != CertificateMatch::Suspicious,
        certificate_validity(der) matches Some((not_before, not_after)) && not_before <= later
            && later < not_after,
    ensures
        verify_step(verify_step(m, hostname, der, first).0, hostname, der, later) == (
            verify_step(m, hostname, der, first).0,
            Ok::<_, VerifyError>(CertificateMatch::Unchanged),
        ),
{
}

/// A certificate that does not parse is refused whatever the store and the
/// time, and the store is left as it was.
pub proof fn lemma_unparsable_refused(
    m: Map<Seq<char>, (Seq<char>, i64)>,
    hostname: Seq<char>,
    der: Seq<u8>,
    now: i64,
)
    requires
        certificate_validity(der) is None,
    ensures
        verify_step(m, hostname, der, now) == (m, Err::<CertificateMatch, _>(VerifyError::BadDer)),
{
}

impl CertificateMap {
    /// The hosts and certificates, in the order they were first stored.
    pub closed spec fn entries(&self) -> Seq<(Seq<char>, (Seq<char>, i64))> {
        self.stored_certificates@.map_values(|e: (String, StoredCertificate)| entry_view(e))
    }

    /// The file the store is kept in.
    pub closed spec fn path(&self) -> Seq<char> {
        self.path_to_file@
    }

    /// No host is stored twice.
    pub open spec fn wf(&self) -> bool {
        unique_hosts(self.entries())
    }

    /// An empty store kept in the file at `path`.
    pub fn new(path: &str) -> (m: CertificateMap)
        ensures
            m.wf(),
            m@ == Map::<Seq<char>, (Seq<char>, i64)>::empty(),
            m.entries().len() == 0,
            m.path() == path@,
    {
        let m = CertificateMap { stored_certificates: Vec::new(), path_to_file: path.to_owned() };
        assert(m.entries() =~= Seq::<(Seq<char>, (Seq<char>, i64))>::empty());
        assert(m@ =~= Map::<Seq<char>, (Seq<char>, i64)>::empty());
        m
    }

    /// The file the store is kept in.
    pub fn path_to_file(&self) -> (p: &str)
        ensures
            p@ == self.path(),
    {
        self.path_to_file.as_str()
    }

    /// The number of hosts stored.
    pub fn len(&self) -> (n: usize)
        ensures
            n == self.entries().len(),
            self.wf() ==> n == self@.len(),
    {
        proof {
            if self.wf() {
                lemma_entries_map_len(self.entries());
            }
        }
        self.stored_certificates.len()
    }

    fn position(&self, host: &str) -> (r: Option<usize>)
        ensures
            match r {
                Some(i) => i < self.entries().len() && self.entries()[i as int].0 == host@,
                None => !has_host(self.entries(), host@),
            },
    {
        let h = host.to_owned();
        let n: usize = self.stored_certificates.len();
        let mut i: usize = 0;
        while i < n
            invariant
                i <= n,
                n == self.stored_certificates@.len(),
                n == self.entries().len(),
                h@ == host@,
                forall|j: int| 0 <= j < i ==> #[trigger] self.entries()[j].0 != host@,
            decreases n - i,
        {
            assert(self.entries()[i as int] == entry_view(self.stored_certificates@[i as int]));
            if self.stored_certificates[i].0 == h {
                return Some(i);
            }
            i = i + 1;
        }
        None
    }

    /// The certificate stored for `host`, if any.
    pub fn get(&self, host: &str) -> (r: Option<&StoredCertificate>)
        requires
            self.wf(),
        ensures
            match r {
                Some(c) => self@.contains_key(host@) && self@[host@] == c@,
                None => !self@.contains_key(host@),
            },
    {
        match self.position(host) {
            Some(i) => {
                proof {
                    lemma_entries_map_at(self.entries(), i as int);
                }
                assert(self.entries()[i as int] == entry_view(self.stored_certificates@[i as int]));
                Some(&self.stored_certificates[i].1)
            },
            None => None,
        }
    }

    /// Stores `cert` for `host`, in place of what was stored for it.
    fn set(&mut self, host: String, cert: StoredCertificate)
        requires
            old(self).wf(),
        ensures
            final(self).wf(),
            final(self)@ == old(self)@.insert(host@, cert@),
            final(self).path() == old(self).path(),
    {
        let ghost e = (host@, cert@);
        let ghost s = self.entries();
        match self.position(host.as_str()) {
            Some(i) => {
                self.stored_certificates.set(i, (host, cert));
                proof {
                    lemma_entries_map_update(s, i as int, e.1);
                    assert(self.entries() =~= s.update(i as int, (s[i as int].0, e.1)));
                }
            },
            None => {
                self.stored_certificates.push((host, cert));
                proof {
                    lemma_entries_map_push(s, e);
                    assert(self.entries() =~= s.push(e));
                }
            },
        }
    }

    /// Trust on first use for `hostname`, which presents a certificate with
    /// fingerprint `new_fingerprint` expiring at `new_not_after`, at time
    /// `now`.
    pub fn match_certificate(
        &mut self,
        hostname: &str,
        new_fingerprint: String,
        new_not_after: i64,
        now: i64,
    ) -> (o: CertificateMatch)
        requires
            old(self).wf(),
        ensures
            final(self).wf(),
            final(self).path() == old(self).path(),
            (final(self)@, o) == tofu_step(old(self)@, hostname@, new_fingerprint@, new_not_after, now),
    {
        match self.position(hostname) {
            Some(i) => {
                proof {
                    lemma_entries_map_at(self.entries(), i as int);
                }
                assert(self.entries()[i as int] == entry_view(self.stored_certificates@[i as int]));
                if self.stored_certificates[i].1.fingerprint == new_fingerprint {
                    return CertificateMatch::Unchanged;
                }
                if now < self.stored_certificates[i].1.not_after {
                    return CertificateMatch::Suspicious;
                }
                let host = self.stored_certificates[i].0.clone();
                self.set(host, StoredCertificate { fingerprint: new_fingerprint, not_after: new_not_after });
                CertificateMatch::Replaced
            },
            None => {
                let key = to_lowercase(hostname);
                self.set(key, StoredCertificate { fingerprint: new_fingerprint, not_after: new_not_after });
                CertificateMatch::Added
            },
        }
    }

    /// Checks the certificate `der` that the server of `hostname` presents,
    /// at time `now`, and runs trust on first use with it.
    pub fn verify_at(&mut self, hostname: &str, der: &[u8], now: i64) -> (r: Result<
        CertificateMatch,
        VerifyError,
    >)
        requires
            old(self).wf(),
        ensures
            final(self).wf(),
            final(self).path() == old(self).path(),
            (final(self)@, r) == verify_step(old(self)@, hostname@, der@, now),
    {
        let host = to_lowercase(hostname);
        let (not_before, not_after): (i64, i64) = match read_validity(der) {
            Some(v) => v,
            None => {
                return Err(VerifyError::BadDer);
            },
        };
        if !(not_before <= now && now < not_after) {
            return Err(VerifyError::CertExpired);
        }
        if !check_signature(der) {
            return Err(VerifyError::InvalidSignature);
        }
        let digest = sha256_digest(der);
        let fingerprint = encode_hex_upper(digest.as_slice());
        Ok(self.match_certificate(host.as_str(), fingerprint, not_after, now))
    }

    /// Checks the certificate `der` that the server of `hostname` presents,
    /// now, and runs trust on first use with it.
    pub fn verify(&mut self, hostname: &str, der: &[u8]) -> (r: Result<CertificateMatch, VerifyError>)
        requires
            old(self).wf(),
        ensures
            final(self).wf(),
            final(self).path() == old(self).path(),
            exists|now: i64| #[trigger] verify_step(old(self)@, hostname@, der@, now) == (final(self)@, r),
    {
        let now: i64 = current_time();
        let r = self.verify_at(hostname, der, now);
        assert(verify_step(old(self)@, hostname@, der@, now) == (self@, r));
        r
    }
}


// ---------------------------------------------------------------------------
// The store file
// ---------------------------------------------------------------------------

/// Why the text of a store file could not be read: the line (counted from
/// zero) that has fewer than three `;`-separated fields, or whose expiry is
/// not an integer.
#[derive(Debug, PartialEq, Eq, Structural, Clone, Copy)]
pub enum StoreError {
    MissingField(usize),
    InvalidExpiry(usize),
}

/// The first three fields of a line split at `;`, as `splitn(3, ';')`
/// gives them: the third holds the rest of the line.
pub open spec fn record_fields(line: Seq<char>) -> Option<(Seq<char>, Seq<char>, Seq<char>)> {
    match first_index_of(line, ';') {
        None => None,
        Some(i) => {
            let rest = line.subrange(i + 1, line.len() as int);
            match first_index_of(rest, ';') {
                None => None,
                Some(j) => Some(
                    (line.subrange(0, i), rest.subrange(0, j), rest.subrange(j + 1, rest.len() as int)),
                ),
            }
        },
    }
}

/// What the lines `ls` of a store file hold: each line is a host, a
/// fingerprint and an expiry, and stores that certificate for the lower-case
/// host, a later line for the same host winning.
pub open spec fn parse_store_lines(ls: Seq<Seq<char>>) -> Result<
    Map<Seq<char>, (Seq<char>, i64)>,
    StoreError,
>
    decreases ls.len(),
{
    if ls.len() == 0 {
        Ok(Map::empty())
    } else {
        match parse_store_lines(ls.drop_last()) {
            Err(e) => Err(e),
            Ok(m) => match record_fields(ls.last()) {
                None => Err(StoreError::MissingField((ls.len() - 1) as usize)),
                Some((host, fp, expiry)) => match parse_i64(expiry) {
                    None => Err(StoreError::InvalidExpiry((ls.len() - 1) as usize)),
                    Some(n) => Ok(m.insert(host_key(host), (fp, n))),
                },
            },
        }
    }
}

/// What the text of a store file holds.
pub open spec fn parse_store(text: Seq<char>) -> Result<Map<Seq<char>, (Seq<char>, i64)>, StoreError> {
    parse_store_lines(lines(text))
}

/// The line of a store file for one host: host, fingerprint and expiry,
/// separated by `;`.
pub open spec fn record_line(e: (Seq<char>, (Seq<char>, i64))) -> Seq<char> {
    e.0 + seq![';'] + e.1.0 + seq![';'] + i64_text(e.1.1)
}

/// The text of a store file: one line for each entry, in order, each ended
/// by a line feed.
pub open spec fn store_text(s: Seq<(Seq<char>, (Seq<char>, i64))>) -> Seq<char>
    decreases s.len(),
{
    if s.len() == 0 {
        seq![]
    } else {
        record_line(s[0]) + seq!['\n'] + store_text(s.drop_first())
    }
}

fn split_record(line: &[char]) -> (r: Option<(Vec<char>, Vec<char>, Vec<char>)>)
    ensures
        match r {
            Some((h, f, t)) => record_fields(line@) == Some((h@, f@, t@)),
            None => record_fields(line@) is None,
        },
{
    let i: usize = match find_char(line, ';') {
        Some(i) => i,
        None => {
            return None;
        },
    };
    let n: usize = line.len();
    assert(i < n);
    let rest = chars_from(line, i + 1);
    let j: usize = match find_char(rest.as_slice(), ';') {
        Some(j) => j,
        None => {
            return None;
        },
    };
    let host = chars_until(line, i);
    let fp = chars_until(rest.as_slice(), j);
    let expiry = chars_from(rest.as_slice(), j + 1);
    Some((host, fp, expiry))
}

proof fn lemma_parse_error_stays(ls: Seq<Seq<char>>, k: int)
    requires
        0 <= k <= ls.len(),
        parse_store_lines(ls.take(k)) is Err,
    ensures
        parse_store_lines(ls) == parse_store_lines(ls.take(k)),
    decreases ls.len(),
{
    if k == ls.len() {
        assert(ls.take(k) =~= ls);
    } else {
        let t = ls.drop_last();
        assert(t.take(k) =~= ls.take(k));
        lemma_parse_error_stays(t, k);
    }
}

/// An entry that the store file holds as it is: neither its host nor its
/// fingerprint holds a `;` or a line feed, and its host is already in lower
/// case.
pub open spec fn storable(e: (Seq<char>, (Seq<char>, i64))) -> bool {
    &&& forall|j: int| 0 <= j < e.0.len() ==> #[trigger] e.0[j] != ';' && e.0[j] != '\n'
    &&& forall|j: int| 0 <= j < e.1.0.len() ==> #[trigger] e.1.0[j] != ';' && e.1.0[j] != '\n'
    &&& host_key(e.0) == e.0
}

proof fn lemma_record_line_shape(e: (Seq<char>, (Seq<char>, i64)))
    requires
        storable(e),
    ensures
        forall|j: int| 0 <= j < record_line(e).len() ==> #[trigger] record_line(e)[j] != '\n',
        record_line(e).len() > 0,
        record_line(e).last() != '\r',
        record_fields(record_line(e)) == Some((e.0, e.1.0, i64_text(e.1.1))),
{
    lemma_i64_text_round_trip(e.1.1);
    let h = e.0;
    let f = e.1.0;
    let d = i64_text(e.1.1);
    let r = record_line(e);
    assert(r =~= h + seq![';'] + f + seq![';'] + d);
    assert forall|j: int| 0 <= j < r.len() implies #[trigger] r[j] != '\n' by {
        if j < h.len() {
            assert(r[j] == h[j]);
        } else if j == h.len() {
        } else if j < h.len() + 1 + f.len() {
            assert(r[j] == f[j - h.len() - 1]);
        } else if j == h.len() + 1 + f.len() {
        } else {
            let k: int = j - h.len() - 2 - f.len();
            assert(r[j] == d[k]);
            assert(crate::decimal::is_digit(d[k]) || d[k] == '-');
        }
    }
    assert(r.last() == d.last());
    assert(is_first_index(r, ';', h.len() as int)) by {
        assert forall|j: int| 0 <= j < h.len() implies r[j] != ';' by {
            assert(r[j] == h[j]);
        }
    }
    lemma_first_index_at(r, ';', h.len() as int);
    let rest = r.subrange(h.len() as int + 1, r.len() as int);
    assert(rest =~= f + seq![';'] + d);
    assert(is_first_index(rest, ';', f.len() as int)) by {
        assert forall|j: int| 0 <= j < f.len() implies rest[j] != ';' by {
            assert(rest[j] == f[j]);
        }
    }
    lemma_first_index_at(rest, ';', f.len() as int);
    assert(r.subrange(0, h.len() as int) =~= h);
    assert(rest.subrange(0, f.len() as int) =~= f);
    assert(rest.subrange(f.len() as int + 1, rest.len() as int) =~= d);
}

proof fn lemma_lines_of_store_text(s: Seq<(Seq<char>, (Seq<char>, i64))>)
    requires
        forall|i: int| 0 <= i < s.len() ==> storable(#[trigger] s[i]),
    ensures
        lines(store_text(s)) == s.map_values(|e: (Seq<char>, (Seq<char>, i64))| record_line(e)),
    decreases s.len(),
{
    let m = s.map_values(|e: (Seq<char>, (Seq<char>, i64))| record_line(e));
    if s.len() == 0 {
        assert(m =~= Seq::<Seq<char>>::empty());
    } else {
        let rest = s.drop_first();
        assert forall|i: int| 0 <= i < rest.len() implies storable(#[trigger] rest[i]) by {
            assert(rest[i] == s[i + 1]);
        }
        lemma_lines_of_store_text(rest);
        assert(storable(s[0]));
        lemma_record_line_shape(s[0]);
        let r = record_line(s[0]);
        let x = store_text(s);
        let t = store_text(rest);
        assert(x =~= r + seq!['\n'] + t);
        assert(is_first_index(x, '\n', r.len() as int)) by {
            assert forall|j: int| 0 <= j < r.len() implies x[j] != '\n' by {
                assert(x[j] == r[j]);
            }
        }
        lemma_first_index_at(x, '\n', r.len() as int);
        assert(x.subrange(0, r.len() as int) =~= r);
        assert(x.subrange(r.len() as int + 1, x.len() as int) =~= t);
        assert(strip_cr(r) == r);
        assert(m =~= seq![r] + rest.map_values(|e: (Seq<char>, (Seq<char>, i64))| record_line(e)));
    }
}

proof fn lemma_parse_records(s: Seq<(Seq<char>, (Seq<char>, i64))>)
    requires
        unique_hosts(s),
        forall|i: int| 0 <= i < s.len() ==> storable(#[trigger] s[i]),
    ensures
        parse_store_lines(s.map_values(|e: (Seq<char>, (Seq<char>, i64))| record_line(e)))
            == Ok::<_, StoreError>(entries_map(s)),
    decreases s.len(),
{
    let ls = s.map_values(|e: (Seq<char>, (Seq<char>, i64))| record_line(e));
    if s.len() == 0 {
        assert(entries_map(s) =~= Map::<Seq<char>, (Seq<char>, i64)>::empty());
    } else {
        let init = s.drop_last();
        let e = s.last();
        assert(unique_hosts(init)) by {
            assert forall|i: int, j: int|
                0 <= i < init.len() && 0 <= j < init.len() && i != j implies #[trigger] init[i].0 != #[trigger] init[j].0 by {
                assert(init[i] == s[i] && init[j] == s[j]);
            }
        }
        assert forall|i: int| 0 <= i < init.len() implies storable(#[trigger] init[i]) by {
            assert(init[i] == s[i]);
        }
        lemma_parse_records(init);
        assert(ls.drop_last() =~= init.map_values(|e: (Seq<char>, (Seq<char>, i64))| record_line(e)));
        assert(storable(s[s.len() - 1]));
        lemma_record_line_shape(e);
        lemma_i64_text_round_trip(e.1.1);
        assert(ls.last() == record_line(e));
        assert(!has_host(init, e.0)) by {
            if has_host(init, e.0) {
                let i: int = choose|i: int| 0 <= i < init.len() && #[trigger] init[i].0 == e.0;
                assert(s[i].0 == s[s.len() - 1].0);
            }
        }
        lemma_entries_map_push(init, e);
        assert(init.push(e) =~= s);
    }
}

/// What the text of a store file holds is what the entries written to it
/// held, as long as hosts and fingerprints hold no `;` or line feed and hosts
/// are in lower case.
pub proof fn lemma_store_text_round_trip(s: Seq<(Seq<char>, (Seq<char>, i64))>)
    requires
        unique_hosts(s),
        forall|i: int| 0 <= i < s.len() ==> storable(#[trigger] s[i]),
    ensures
        parse_store(store_text(s)) == Ok::<_, StoreError>(entries_map(s)),
{
    lemma_lines_of_store_text(s);
    lemma_parse_records(s);
}

/// A store written to its file reads back as the same store.
pub proof fn lemma_store_file_round_trip(m: &CertificateMap)
    requires
        m.wf(),
        storable_map(m@),
    ensures
        parse_store(store_text(m.entries())) == Ok::<_, StoreError>(m@),
{
    let s = m.entries();
    assert forall|i: int| 0 <= i < s.len() implies storable(#[trigger] s[i]) by {
        lemma_entries_map_at(s, i);
        assert(m@.contains_key(s[i].0));
    }
    lemma_store_text_round_trip(s);
}

/// Every host of `m`, with its certificate, is held by the store file as it
/// is.
pub open spec fn storable_map(m: Map<Seq<char>, (Seq<char>, i64)>) -> bool {
    forall|h: Seq<char>| #[trigger] m.contains_key(h) ==> storable((h, m[h]))
}

proof fn lemma_entries_map_len(s: Seq<(Seq<char>, (Seq<char>, i64))>)
    requires
        unique_hosts(s),
    ensures
        entries_map(s).dom().finite(),
        entries_map(s).len() == s.len(),
    decreases s.len(),
{
    if s.len() == 0 {
        assert(entries_map(s) =~= Map::<Seq<char>, (Seq<char>, i64)>::empty());
    } else {
        let init = s.drop_last();
        let e = s.last();
        assert(unique_hosts(init)) by {
            assert forall|i: int, j: int|
                0 <= i < init.len() && 0 <= j < init.len() && i != j implies #[trigger] init[i].0 != #[trigger] init[j].0 by {
                assert(init[i] == s[i] && init[j] == s[j]);
            }
        }
        assert(!has_host(init, e.0)) by {
            if has_host(init, e.0) {
                let i: int = choose|i: int| 0 <= i < init.len() && #[trigger] init[i].0 == e.0;
                assert(s[i].0 == s[s.len() - 1].0);
            }
        }
        lemma_entries_map_len(init);
        lemma_entries_map_push(init, e);
        assert(init.push(e) =~= s);
        assert(!entries_map(init).contains_key(e.0));
    }
}

/// The map of a store is the map of its entries, one entry for each host.
pub proof fn lemma_view_of_entries(m: &CertificateMap)
    requires
        m.wf(),
    ensures
        m@ == entries_map(m.entries()),
        m@.dom().finite(),
        m@.len() == m.entries().len(),
{
    lemma_entries_map_len(m.entries());
}

impl CertificateMap {
    /// Reads the text of a store file into a store kept at `path`.
    pub fn load_from_contents(path: &str, contents: &str) -> (r: Result<CertificateMap, StoreError>)
        ensures
            match r {
                Ok(m) => {
                    &&& m.wf()
                    &&& parse_store(contents@) == Ok::<_, StoreError>(m@)
                    &&& m.path() == path@
                },
                Err(e) => parse_store(contents@) == Err::<Map<Seq<char>, (Seq<char>, i64)>, _>(e),
            },
    {
        let v = chars_of(contents);
        let ls = lines_of(v.as_slice());
        let ghost all = char_lines(ls@);
        let mut m = CertificateMap::new(path);
        assert(all.take(0) =~= Seq::<Seq<char>>::empty());
        for i in 0..ls.len()
            invariant
                all == char_lines(ls@),
                all == lines(contents@),
                m.wf(),
                m.path() == path@,
                parse_store_lines(all.take(i as int)) == Ok::<_, StoreError>(m@),
        {
            let ghost before = all.take(i as int);
            let ghost upto = all.take(i + 1);
            assert(upto.drop_last() =~= before);
            assert(upto.last() == ls@[i as int]@);
            match split_record(ls[i].as_slice()) {
                None => {
                    proof {
                        lemma_parse_error_stays(all, i + 1);
                    }
                    return Err(StoreError::MissingField(i));
                },
                Some((host, fp, expiry)) => {
                    match parse_i64_chars(expiry.as_slice()) {
                        None => {
                            proof {
                                lemma_parse_error_stays(all, i + 1);
                            }
                            return Err(StoreError::InvalidExpiry(i));
                        },
                        Some(n) => {
                            let host_text = string_from_chars(host.as_slice());
                            let key = to_lowercase(host_text.as_str());
                            m.set(
                                key,
                                StoredCertificate {
                                    fingerprint: string_from_chars(fp.as_slice()),
                                    not_after: n,
                                },
                            );
                        },
                    }
                },
            }
        }
        assert(all.take(ls@.len() as int) =~= all);
        Ok(m)
    }

    /// The text of the store file: one line `host;fingerprint;expiry` for
    /// each host, in the order the hosts were first stored.
    pub fn file_contents(&self) -> (r: String)
        ensures
            r@ == store_text(self.entries()),
            self.wf() && storable_map(self@) ==> parse_store(r@) == Ok::<_, StoreError>(self@),
    {
        proof {
            if self.wf() && storable_map(self@) {
                lemma_store_file_round_trip(self);
            }
        }
        let mut r = String::new();
        let n: usize = self.stored_certificates.len();
        let ghost s = self.entries();
        assert(s.subrange(0, n as int) =~= s);
        for i in 0..n
            invariant
                n == self.stored_certificates@.len(),
                s == self.entries(),
                store_text(s) == r@ + store_text(s.subrange(i as int, n as int)),
        {
            let ghost rest = s.subrange(i as int, n as int);
            assert(rest.drop_first() =~= s.subrange(i + 1, n as int));
            assert(rest[0] == entry_view(self.stored_certificates@[i as int]));
            let ghost before = r@;
            let entry = &self.stored_certificates[i];
            r.append(entry.0.as_str());
            push_char(&mut r, ';');
            r.append(entry.1.fingerprint.as_str());
            push_char(&mut r, ';');
            let expiry = i64_to_text(entry.1.not_after);
            r.append(expiry.as_str());
            push_char(&mut r, '\n');
            assert(r@ =~= before + (record_line(rest[0]) + seq!['\n']));
        }
        assert(s.subrange(n as int, n as int) =~= Seq::<(Seq<char>, (Seq<char>, i64))>::empty());
        assert(r@ + Seq::<char>::empty() =~= r@);
        r
    }
}


// ---------------------------------------------------------------------------
// The verifier shared with the TLS client
// ---------------------------------------------------------------------------

/// What the lock of a verifier lets in: well-formed stores kept in the file
/// at `path`.
pub struct WellFormedStore {
    pub path: Ghost<Seq<char>>,
}

impl RwLockPredicate<CertificateMap> for WellFormedStore {
    open spec fn inv(self, m: CertificateMap) -> bool {
        m.wf() && m.path() == self.path@
    }
}

/// The store of a TLS client, behind a lock that keeps it well formed.
pub struct TOFUVerifier {
    pub map: Arc<RwLock<CertificateMap, WellFormedStore>>,
}

impl TOFUVerifier {
    /// A verifier with an empty store kept in the file at `path`.
    pub fn new(path: &str) -> (v: TOFUVerifier)
        ensures
            v.map.pred() == (WellFormedStore { path: Ghost(path@) }),
            forall|m: CertificateMap| v.map.inv(m) <==> (m.wf() && m.path() == path@),
    {
        let m = CertificateMap::new(path);
        TOFUVerifier {
            map: Arc::new(RwLock::new(m, Ghost(WellFormedStore { path: Ghost(path@) }))),
        }
    }

    /// Checks the certificate `der` that the server of `hostname` presents,
    /// on the store behind the lock, now. A certificate that does not parse
    /// is refused as such whatever the store and the time; one that is
    /// accepted parses and carries a signature that verifies, and the store
    /// then holds what one step of the check makes of some earlier store at
    /// some time; the text of the store file that goes with it comes back.
    pub fn check_certificate(&self, hostname: &str, der: &[u8]) -> (r: Result<
        (CertificateMatch, String),
        VerifyError,
    >)
        ensures
            (r == Err::<(CertificateMatch, String), _>(VerifyError::BadDer)) <==> certificate_validity(der@) is None,
            r == Err::<(CertificateMatch, String), _>(VerifyError::InvalidSignature) ==> {
                &&& certificate_validity(der@) is Some
                &&& !certificate_signature_verifies(der@)
            },
            r == Err::<(CertificateMatch, String), _>(VerifyError::CertExpired) ==> certificate_validity(der@) is Some,
            r matches Ok((o, text)) ==> {
                &&& certificate_validity(der@) is Some
                &&& certificate_signature_verifies(der@)
                &&& exists|before: Map<Seq<char>, (Seq<char>, i64)>, after: Seq<(Seq<char>, (Seq<char>, i64))>, now: i64| {
                    &&& unique_hosts(after)
                    &&& #[trigger] verify_step(before, hostname@, der@, now) == (#[trigger] entries_map(after), Ok::<_, VerifyError>(o))
                    &&& text@ == store_text(after)
                }
            },
    {
        let (mut m, handle) = self.map.acquire_write();
        let ghost before = m@;
        let r = m.verify(hostname, der);
        let out = match r {
            Ok(o) => {
                let text = m.file_contents();
                proof {
                    let now: i64 = choose|now: i64| #[trigger] verify_step(before, hostname@, der@, now) == (m@, r);
                    assert(verify_step(before, hostname@, der@, now) == (entries_map(m.entries()), Ok::<_, VerifyError>(o)));
                    assert(unique_hosts(m.entries()));
                }
                Ok((o, text))
            },
            Err(e) => Err(e),
        };
        handle.release_write(m);
        out
    }
}

} // verus!
