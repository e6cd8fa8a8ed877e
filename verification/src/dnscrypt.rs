//! The DNSCrypt client: fetching and reading certificates, and encrypting
//! queries and decrypting answers.

use crate::bytes::{
    append, be16, be16_at, be32, be32_at, lemma_be16_roundtrip, lemma_read_in_row, read_be16,
    read_be32, same_bytes,
};
use crate::config::DnsProvider;
use crate::crypto::{
    box_public_key, box_shared_key, generate_keypair, seal, secretbox, secretbox_open, share_key,
    unseal,
};
use crate::net_types::{zeros, Ipv4Addr, SocketAddr};
use vstd::prelude::*;
use vstd::utf8::encode_utf8;

verus! {

/// What walking over a DNS answer in search of a text record has led to.
#[derive(Debug)]
pub enum CertScan {
    /// The first string of the first text record where that is not empty.
    Found(Vec<u8>),
    /// There is none.
    Absent,
    /// A record lies behind the end of the answer.
    Overrun,
}

/// A [`CertScan`] with its bytes as a sequence.
pub enum CertScanView {
    Found(Seq<u8>),
    Absent,
    Overrun,
}

impl View for CertScan {
    type V = CertScanView;

    open spec fn view(&self) -> CertScanView {
        match *self {
            CertScan::Found(bytes) => CertScanView::Found(bytes@),
            CertScan::Absent => CertScanView::Absent,
            CertScan::Overrun => CertScanView::Overrun,
        }
    }
}

/// Where the labels of the name at `pos` end: at a zero byte, or at the end of
/// the bytes. `None` if a label goes beyond the end.
pub open spec fn name_end(s: Seq<u8>, pos: int) -> Option<int>
    decreases s.len() - pos,
{
    if pos < 0 || pos >= s.len() || s[pos] == 0 {
        Some(pos)
    } else if pos + 1 + s[pos] > s.len() {
        None
    } else {
        name_end(s, pos + 1 + s[pos])
    }
}

/// Where the `n` questions that start at `pos` end. A question is a name, a
/// zero byte and four more bytes.
pub open spec fn questions_end(s: Seq<u8>, pos: int, n: nat) -> Option<int>
    decreases n,
{
    if n == 0 {
        Some(pos)
    } else {
        match name_end(s, pos) {
            None => None,
            Some(p) => questions_end(s, p + 5, (n - 1) as nat),
        }
    }
}

/// The first string of a text record, which has its length in front; nothing if
/// it goes beyond the end of the record.
pub open spec fn first_string(txt: Seq<u8>) -> Seq<u8> {
    if txt.len() == 0 || 1 + txt[0] > txt.len() {
        Seq::empty()
    } else {
        txt.subrange(1, 1 + txt[0])
    }
}

/// Where the name of the record at `pos` ends: two bytes on for a pointer,
/// behind the zero byte for labels.
pub open spec fn record_name_end(s: Seq<u8>, pos: int) -> Option<int> {
    if s[pos] >= 0xC0 {
        Some(pos + 2)
    } else {
        match name_end(s, pos) {
            None => None,
            Some(p) => Some(p + 1),
        }
    }
}

/// The first string of a text record that is not empty, among the `n` records at
/// `pos`.
pub open spec fn find_text(s: Seq<u8>, pos: int, n: nat) -> CertScanView
    decreases n,
{
    if n == 0 || pos + 10 > s.len() {
        CertScanView::Absent
    } else {
        match record_name_end(s, pos) {
            None => CertScanView::Absent,
            Some(p) => if p + 10 > s.len() {
                CertScanView::Overrun
            } else {
                let end = p + 10 + be16_at(s, p + 8);
                if end > s.len() {
                    CertScanView::Absent
                } else {
                    let text = first_string(s.subrange(p + 10, end));
                    if be16_at(s, p) == 16 && text.len() > 0 {
                        CertScanView::Found(text)
                    } else {
                        find_text(s, end, (n - 1) as nat)
                    }
                }
            },
        }
    }
}

/// The first string of a text record that is not empty, in a DNS answer.
pub open spec fn cert_scan(s: Seq<u8>) -> CertScanView {
    if s.len() < 12 {
        CertScanView::Absent
    } else {
        match questions_end(s, 12, be16_at(s, 4) as nat) {
            None => CertScanView::Absent,
            Some(p) => find_text(s, p, be16_at(s, 6) as nat),
        }
    }
}

fn skip_labels(s: &[u8], start: usize) -> (r: Option<usize>)
    requires
        start <= s@.len(),
    ensures
        match r {
            Some(p) => name_end(s@, start as int) == Some(p as int) && start <= p <= s@.len(),
            None => name_end(s@, start as int) is None,
        },
{
    let n = s.len();
    let mut pos = start;
    while pos < n && s[pos] != 0
        invariant
            n == s@.len(),
            start <= pos <= n,
            name_end(s@, start as int) == name_end(s@, pos as int),
        decreases n - pos,
    {
        let len = s[pos] as usize;
        if len > n - pos - 1 {
            return None;
        }
        pos = pos + 1 + len;
    }
    Some(pos)
}

proof fn lemma_questions_beyond(s: Seq<u8>, pos: int, n: nat)
    requires
        pos >= s.len(),
    ensures
        questions_end(s, pos, n) matches Some(p) && p >= pos,
    decreases n,
{
    if n > 0 {
        lemma_questions_beyond(s, pos + 5, (n - 1) as nat);
    }
}

fn take_string(txt: &[u8]) -> (r: Vec<u8>)
    ensures
        r@ == first_string(txt@),
{
    let n = txt.len();
    let mut out: Vec<u8> = Vec::new();
    if n > 0 {
        let len = txt[0] as usize;
        if len < n {
            append(&mut out, &txt[1..1 + len]);
        }
    }
    assert(out@ =~= first_string(txt@));
    out
}

/// Walks over the records of a DNS answer in search of a text record.
fn scan_answers(s: &[u8], start: usize, count: u16) -> (r: CertScan)
    requires
        start <= s@.len(),
    ensures
        r@ == find_text(s@, start as int, count as nat),
{
    let n = s.len();
    let mut pos = start;
    let mut left = count;
    while left > 0
        invariant
            n == s@.len(),
            pos <= n,
            find_text(s@, start as int, count as nat) == find_text(s@, pos as int, left as nat),
        decreases left,
    {
        if n - pos < 10 {
            return CertScan::Absent;
        }
        let name = if s[pos] >= 0xC0 {
            pos + 2
        } else {
            match skip_labels(s, pos) {
                None => return CertScan::Absent,
                Some(p) => {
                    if p == n {
                        return CertScan::Overrun;
                    }
                    p + 1
                },
            }
        };
        if n - name < 10 {
            return CertScan::Overrun;
        }
        let rtype = read_be16(s, name);
        let rdlen = read_be16(s, name + 8) as usize;
        let data = name + 10;
        if rdlen > n - data {
            return CertScan::Absent;
        }
        if rtype == 16 {
            let text = take_string(&s[data..data + rdlen]);
            if text.len() > 0 {
                return CertScan::Found(text);
            }
        }
        pos = data + rdlen;
        left = left - 1;
    }
    CertScan::Absent
}

/// Walks over a DNS answer in search of a text record.
pub fn scan_cert(s: &[u8]) -> (r: CertScan)
    ensures
        r@ == cert_scan(s@),
{
    let n = s.len();
    if n < 12 {
        return CertScan::Absent;
    }
    let mut pos: usize = 12;
    let count = read_be16(s, 4);
    let mut left = count;
    while left > 0
        invariant
            n == s@.len(),
            12 <= pos <= n,
            questions_end(s@, 12, count as nat) == questions_end(s@, pos as int, left as nat),
            count == be16_at(s@, 4),
        decreases left,
    {
        match skip_labels(s, pos) {
            None => return CertScan::Absent,
            Some(p) => {
                if n - p < 5 {
                    proof {
                        lemma_questions_beyond(s@, p + 5, (left - 1) as nat);
                    }
                    return CertScan::Absent;
                }
                pos = p + 5;
            },
        }
        left = left - 1;
    }
    scan_answers(s, pos, read_be16(s, 6))
}

/// The certificate in a DNS answer: the first string of its text record.
pub fn extract_cert_from_dns(dns_response: &[u8]) -> (r: Option<Vec<u8>>)
    requires
        cert_scan(dns_response@) !is Overrun,
    ensures
        match r {
            Some(bytes) => cert_scan(dns_response@) == CertScanView::Found(bytes@),
            None => cert_scan(dns_response@) == CertScanView::Absent,
        },
{
    match scan_cert(dns_response) {
        CertScan::Found(bytes) => Some(bytes),
        _ => None,
    }
}

/// Where the label that starts at `i` ends: at a dot, or at the end.
pub open spec fn label_end(name: Seq<u8>, i: int) -> int
    decreases name.len() - i,
{
    if i < 0 || i >= name.len() || name[i] == 46 {
        i
    } else {
        label_end(name, i + 1)
    }
}

proof fn lemma_label_end_bounds(name: Seq<u8>, i: int)
    requires
        0 <= i <= name.len(),
    ensures
        i <= label_end(name, i) <= name.len(),
        label_end(name, i) < name.len() ==> name[label_end(name, i)] == 46,
    decreases name.len() - i,
{
    if i < name.len() && name[i] != 46 {
        lemma_label_end_bounds(name, i + 1);
    }
}

/// The labels of a name from `i` on, each with its length in front. Empty
/// labels are left out.
pub open spec fn labels_from(name: Seq<u8>, i: int) -> Seq<u8>
    decreases name.len() - i,
{
    let end = label_end(name, i);
    let label = if end <= i {
        Seq::empty()
    } else {
        seq![(end - i) as u8] + name.subrange(i, end)
    };
    if i < 0 || i >= name.len() || end < i || end >= name.len() {
        label
    } else {
        label + labels_from(name, end + 1)
    }
}

/// The DNS query for the text records of a name.
pub open spec fn cert_query(name: Seq<u8>) -> Seq<u8> {
    seq![0u8, 0, 1, 0, 0, 1, 0, 0, 0, 0, 0, 0] + labels_from(name, 0) + seq![0u8, 0, 0x10, 0, 1]
}

/// The DNS query for a provider's certificates.
pub fn build_cert_query(provider_name: &str) -> (r: Vec<u8>)
    ensures
        r@ == cert_query(encode_utf8(provider_name@)),
{
    let name = provider_name.as_bytes();
    let n = name.len();
    let mut query: Vec<u8> = Vec::new();
    append(&mut query, &[0u8, 0, 1, 0, 0, 1, 0, 0, 0, 0, 0, 0]);
    let ghost head = query@;
    let mut i: usize = 0;
    let mut more = true;
    assert(head + labels_from(name@, 0) =~= query@ + labels_from(name@, 0));
    while more
        invariant
            n == name@.len(),
            i <= n,
            more ==> head + labels_from(name@, 0) == query@ + labels_from(name@, i as int),
            !more ==> head + labels_from(name@, 0) == query@,
        decreases (if more { 1int } else { 0int }), n - i,
    {
        let ghost before = query@;
        let mut end = i;
        while end < n && name[end] != 46
            invariant
                n == name@.len(),
                i <= end <= n,
                label_end(name@, i as int) == label_end(name@, end as int),
            decreases n - end,
        {
            end = end + 1;
        }
        if end > i {
            query.push((end - i) as u8);
            append(&mut query, &name[i..end]);
        }
        let ghost label = if end <= i {
            Seq::empty()
        } else {
            seq![(end - i) as u8] + name@.subrange(i as int, end as int)
        };
        assert(query@ =~= before + label);
        if end < n {
            assert(before + (label + labels_from(name@, end + 1)) =~= query@ + labels_from(
                name@,
                end + 1,
            ));
            i = end + 1;
        } else {
            more = false;
        }
    }
    append(&mut query, &[0u8, 0, 0x10, 0, 1]);
    assert(query@ =~= cert_query(name@));
    query
}

/// Whether no label of a name, from `i` on, is longer than one byte can tell.
pub open spec fn short_labels(name: Seq<u8>, i: int) -> bool
    decreases name.len() - i,
{
    let end = label_end(name, i);
    &&& end - i <= 255
    &&& i < 0 || i >= name.len() || end < i || end >= name.len() || short_labels(name, end + 1)
}

proof fn lemma_labels_walk(pre: Seq<u8>, name: Seq<u8>, i: int, rest: Seq<u8>)
    requires
        0 <= i <= name.len(),
        short_labels(name, i),
        rest.len() > 0,
        rest[0] == 0,
    ensures
        name_end(pre + labels_from(name, i) + rest, pre.len() as int) == Some(
            (pre.len() + labels_from(name, i).len()) as int,
        ),
    decreases name.len() - i,
{
    let s = pre + labels_from(name, i) + rest;
    let end = label_end(name, i);
    lemma_label_end_bounds(name, i);
    let label = if end <= i {
        Seq::empty()
    } else {
        seq![(end - i) as u8] + name.subrange(i, end)
    };
    let next = pre + label;
    if end > i {
        assert(s[pre.len() as int] == (end - i) as u8);
        assert(name_end(s, pre.len() as int) == name_end(s, next.len() as int));
    } else {
        assert(next =~= pre);
    }
    if i < name.len() && end < name.len() {
        lemma_labels_walk(next, name, end + 1, rest);
        assert(s =~= next + labels_from(name, end + 1) + rest);
    } else {
        assert(s =~= next + rest);
        assert(s[next.len() as int] == 0);
    }
}

/// An answer repeats the question of the query. Whoever walks over it finds the
/// records right behind it, as long as no label is longer than 255 bytes.
pub proof fn lemma_question_is_skipped(name: Seq<u8>, records: Seq<u8>)
    requires
        short_labels(name, 0),
    ensures
        questions_end(cert_query(name) + records, 12, 1) == Some(cert_query(name).len() as int),
{
    let pre = seq![0u8, 0, 1, 0, 0, 1, 0, 0, 0, 0, 0, 0];
    let rest = seq![0u8, 0, 0x10, 0, 1] + records;
    lemma_labels_walk(pre, name, 0, rest);
    assert(cert_query(name) + records =~= pre + labels_from(name, 0) + rest);
    let p = (pre.len() + labels_from(name, 0).len()) as int;
    assert(questions_end(cert_query(name) + records, p + 5, 0) == Some(p + 5));
    reveal_with_fuel(questions_end, 2);
}

/// An answer to the query for a name: the question again, and one text record
/// with one string.
pub open spec fn text_answer(
    name: Seq<u8>,
    ids: Seq<u8>,
    counts: Seq<u8>,
    class_and_ttl: Seq<u8>,
    text: Seq<u8>,
) -> Seq<u8> {
    ids + seq![0u8, 1, 0, 1] + counts + labels_from(name, 0) + seq![0u8, 0, 0x10, 0, 1] + seq![
        0xC0u8,
        12,
        0,
        16,
    ] + class_and_ttl + be16((1 + text.len()) as u16) + seq![text.len() as u8] + text
}

/// A certificate that a server sends as a text record is found as it was sent.
pub proof fn lemma_sent_text_is_found(
    name: Seq<u8>,
    ids: Seq<u8>,
    counts: Seq<u8>,
    class_and_ttl: Seq<u8>,
    text: Seq<u8>,
)
    requires
        short_labels(name, 0),
        ids.len() == 4,
        counts.len() == 4,
        class_and_ttl.len() == 6,
        0 < text.len() <= 255,
    ensures
        cert_scan(text_answer(name, ids, counts, class_and_ttl, text)) == CertScanView::Found(text),
{
    let s = text_answer(name, ids, counts, class_and_ttl, text);
    let labels = labels_from(name, 0);
    let pre = ids + seq![0u8, 1, 0, 1] + counts;
    let record = seq![0xC0u8, 12, 0, 16] + class_and_ttl + be16((1 + text.len()) as u16) + seq![
        text.len() as u8,
    ] + text;
    let rest = seq![0u8, 0, 0x10, 0, 1] + record;
    assert(s =~= pre + labels + rest);
    lemma_labels_walk(pre, name, 0, rest);
    assert(s[4] == 0 && s[5] == 1 && s[6] == 0 && s[7] == 1);
    let p = (12 + labels.len()) as int + 5;
    assert(questions_end(s, p, 0) == Some(p));
    assert(questions_end(s, 12, 1) == Some(p)) by {
        reveal_with_fuel(questions_end, 2);
    }
    assert(s.len() == p + 13 + text.len());
    assert(s[p] == 0xC0);
    assert(s[p + 2] == 0 && s[p + 3] == 16);
    let n = (1 + text.len()) as u16;
    lemma_be16_roundtrip(n);
    assert(s[p + 10] == be16(n)[0] && s[p + 11] == be16(n)[1]);
    let data = s.subrange(p + 12, p + 12 + n);
    assert(data =~= seq![text.len() as u8] + text);
    assert(first_string(data) =~= text);
}

/// A server's certificate.
#[derive(Debug, Clone, Copy)]
pub struct DnscryptCert {
    pub server_pk: [u8; 32],
    pub client_magic: [u8; 8],
    pub serial: u32,
    pub valid_until: u32,
}

/// The marker in front of a certificate.
pub open spec fn cert_magic() -> Seq<u8> {
    seq![68u8, 78, 83, 67]
}

/// Whether the bytes are those of a certificate.
pub open spec fn is_cert(bytes: Seq<u8>) -> bool {
    bytes.len() >= 124 && bytes.subrange(0, 4) == cert_magic()
}

/// Whether `cert` holds what the bytes of a certificate say.
pub open spec fn cert_holds(cert: DnscryptCert, bytes: Seq<u8>) -> bool {
    &&& cert.server_pk@ == bytes.subrange(72, 104)
    &&& cert.client_magic@ == bytes.subrange(104, 112)
    &&& cert.serial == be32_at(bytes, 56)
    &&& cert.valid_until == 0
}

fn array8(buf: &[u8], at: usize) -> (r: [u8; 8])
    requires
        at + 8 <= buf@.len(),
    ensures
        r@ == buf@.subrange(at as int, at + 8),
{
    let size = buf.len();
    assert(at + 8 <= size);
    let r = [
        buf[at],
        buf[at + 1],
        buf[at + 2],
        buf[at + 3],
        buf[at + 4],
        buf[at + 5],
        buf[at + 6],
        buf[at + 7],
    ];
    assert(r@ =~= buf@.subrange(at as int, at + 8));
    r
}

fn array32(buf: &[u8], at: usize) -> (r: [u8; 32])
    requires
        at + 32 <= buf@.len(),
    ensures
        r@ == buf@.subrange(at as int, at + 32),
{
    let size = buf.len();
    let mut r = [0u8; 32];
    let mut i: usize = 0;
    while i < 32
        invariant
            i <= 32,
            size == buf@.len(),
            at + 32 <= size,
            forall|k: int| 0 <= k < i ==> r@[k] == buf@[at + k],
        decreases 32 - i,
    {
        r[i] = buf[at + i];
        i = i + 1;
    }
    assert(r@ =~= buf@.subrange(at as int, at + 32));
    r
}

/// Reads a certificate.
pub fn read_cert(bytes: &[u8]) -> (r: Option<DnscryptCert>)
    ensures
        match r {
            Some(cert) => is_cert(bytes@) && cert_holds(cert, bytes@),
            None => !is_cert(bytes@),
        },
{
    if bytes.len() < 124 {
        return None;
    }
    let magic = [68u8, 78, 83, 67];
    assert(magic@ =~= cert_magic());
    if !same_bytes(&bytes[0..4], &magic) {
        return None;
    }
    Some(
        DnscryptCert {
            server_pk: array32(bytes, 72),
            client_magic: array8(bytes, 104),
            serial: read_be32(bytes, 56),
            valid_until: 0,
        },
    )
}

/// The port that is asked at the given attempt. These ports are not ones that
/// a phone redirects.
pub open spec fn cert_port(attempt: int) -> Option<u16> {
    if attempt == 0 {
        Some(443)
    } else if attempt == 1 {
        Some(5353)
    } else if attempt == 2 {
        Some(8443)
    } else {
        None
    }
}

/// What to do next to get a certificate.
#[derive(Debug)]
pub enum CertStep {
    /// Send the query to this port.
    Ask(u16),
    /// Here it is.
    Found(DnscryptCert),
    /// Nobody has sent one.
    Failed(String),
}

/// Asks for a certificate, one port after the other.
#[derive(Debug, Clone, Copy)]
pub struct CertFetch {
    pub attempt: u8,
}

/// Whether an answer holds a certificate, and then which bytes are its.
pub open spec fn answered_cert(reply: Option<Seq<u8>>) -> Option<Seq<u8>> {
    match reply {
        None => None,
        Some(data) => match cert_scan(data) {
            CertScanView::Found(bytes) => if is_cert(bytes) {
                Some(bytes)
            } else {
                None
            },
            _ => None,
        },
    }
}

/// The bytes of an answer.
pub open spec fn reply_view(reply: Option<Vec<u8>>) -> Option<Seq<u8>> {
    match reply {
        None => None,
        Some(data) => Some(data@),
    }
}

impl CertFetch {
    /// Starts with the first port, which it returns.
    pub fn start() -> (r: (CertFetch, u16))
        ensures
            r.0.attempt == 0,
            Some(r.1) == cert_port(0),
    {
        (CertFetch { attempt: 0 }, 443)
    }

    /// Takes in the answer from the port that was asked last; `None` if none
    /// came in time.
    pub fn receive(&mut self, reply: Option<Vec<u8>>) -> (r: CertStep)
        requires
            old(self).attempt < 3,
            reply matches Some(data) ==> cert_scan(data@) !is Overrun,
        ensures
            match answered_cert(reply_view(reply)) {
                Some(bytes) => {
                    &&& r matches CertStep::Found(cert) && cert_holds(cert, bytes)
                    &&& *final(self) == *old(self)
                },
                None => {
                    &&& final(self).attempt == old(self).attempt + 1
                    &&& match cert_port(final(self).attempt as int) {
                        Some(port) => r == CertStep::Ask(port),
                        None => r matches CertStep::Failed(e) && e@ == "cert fetch: no response"@,
                    }
                },
            },
    {
        if let Some(data) = reply {
            if let Some(bytes) = extract_cert_from_dns(data.as_slice()) {
                if let Some(cert) = read_cert(bytes.as_slice()) {
                    return CertStep::Found(cert);
                }
            }
        }
        self.attempt = self.attempt + 1;
        if self.attempt == 1 {
            CertStep::Ask(5353)
        } else if self.attempt == 2 {
            CertStep::Ask(8443)
        } else {
            CertStep::Failed("cert fetch: no response".to_owned())
        }
    }
}

/// How long the keys of a session are used, in nanoseconds.
pub const KEY_LIFETIME: u64 = 3_600_000_000_000;

/// How long a certificate is used, in nanoseconds.
pub const CERT_LIFETIME: u64 = 86_400_000_000_000;

/// The time from `then` to `now`, zero if `then` is later.
pub open spec fn elapsed(then: u64, now: u64) -> int {
    if then <= now {
        now - then
    } else {
        0
    }
}

fn time_since(then: u64, now: u64) -> (r: u64)
    ensures
        r == elapsed(then, now),
{
    if then <= now {
        now - then
    } else {
        0
    }
}

/// The keys that a client shares with a server.
#[derive(Debug, Clone, Copy)]
pub struct DnscryptSession {
    pub client_pk: [u8; 32],
    pub shared_key: [u8; 32],
    pub client_magic: [u8; 8],
    /// When the session was made, in nanoseconds of a clock that does not go
    /// back.
    pub created: u64,
}

/// The nonce that half a nonce stands for: the other half is zero.
pub open spec fn full_nonce(half: Seq<u8>) -> Seq<u8> {
    half + zeros(12)
}

fn extend_nonce(half: &[u8]) -> (r: [u8; 24])
    requires
        half@.len() == 12,
    ensures
        r@ == full_nonce(half@),
{
    let mut r = [0u8; 24];
    let mut i: usize = 0;
    while i < 12
        invariant
            i <= 12,
            half@.len() == 12,
            forall|k: int| 0 <= k < i ==> r@[k] == half@[k],
            forall|k: int| i <= k < 24 ==> r@[k] == 0,
        decreases 12 - i,
    {
        r[i] = half[i];
        i = i + 1;
    }
    assert(r@ =~= full_nonce(half@));
    r
}

impl DnscryptSession {
    /// Whether the session uses a key that it shares with the holder of the
    /// certificate, and names the public key that belongs to its own secret
    /// key.
    pub open spec fn made_for(self, cert: DnscryptCert, secret_key: Seq<u8>, now: u64) -> bool {
        &&& self.client_pk@ == box_public_key(secret_key)
        &&& self.shared_key@ == box_shared_key(cert.server_pk@, secret_key)
        &&& self.client_magic@ == cert.client_magic@
        &&& self.created == now
    }

    /// Whether the session was made just now for the holder of the certificate,
    /// with some secret key.
    pub open spec fn new_for(self, cert: DnscryptCert, now: u64) -> bool {
        exists|secret_key: Seq<u8>|
            secret_key.len() == 32 && #[trigger] self.made_for(cert, secret_key, now)
    }

    /// Whether the session is too old to be used.
    pub open spec fn expired(self, now: u64) -> bool {
        elapsed(self.created, now) > KEY_LIFETIME
    }

    /// The packet for a query that is encrypted with this half of a nonce.
    pub open spec fn packet(self, half: Seq<u8>, query: Seq<u8>) -> Seq<u8> {
        self.client_magic@ + self.client_pk@ + half + secretbox(
            query,
            full_nonce(half),
            self.shared_key@,
        )
    }

    /// What an answer says, or why it is refused.
    pub open spec fn opened(self, data: Seq<u8>) -> Result<Seq<u8>, Seq<char>> {
        if data.len() < 37 {
            Err("response too short"@)
        } else if data.subrange(0, 8) != self.client_magic@ {
            Err("bad client magic"@)
        } else {
            match secretbox_open(
                data.subrange(20, data.len() as int),
                full_nonce(data.subrange(8, 20)),
                self.shared_key@,
            ) {
                Some(plain) => Ok(plain),
                None => Err("decrypt failed"@),
            }
        }
    }

    /// A session with the given keys.
    pub fn with_keys(
        cert: &DnscryptCert,
        client_pk: [u8; 32],
        client_sk: &[u8; 32],
        now: u64,
    ) -> (r: Self)
        ensures
            r.client_pk == client_pk,
            r.shared_key@ == box_shared_key(cert.server_pk@, client_sk@),
            r.client_magic == cert.client_magic,
            r.created == now,
    {
        DnscryptSession {
            client_pk,
            shared_key: share_key(&cert.server_pk, client_sk),
            client_magic: cert.client_magic,
            created: now,
        }
    }

    /// A session with new keys.
    pub fn new(cert: &DnscryptCert, now: u64) -> (r: Result<Self, String>)
        ensures
            r matches Ok(session) && session.new_for(*cert, now),
    {
        let (client_pk, client_sk) = generate_keypair();
        let session = DnscryptSession::with_keys(cert, client_pk, &client_sk, now);
        assert(client_sk@.len() == 32 && session.made_for(*cert, client_sk@, now));
        Ok(session)
    }

    /// Whether the session is too old to be used.
    pub fn is_expired(&self, now: u64) -> (r: bool)
        ensures
            r == self.expired(now),
    {
        time_since(self.created, now) > KEY_LIFETIME
    }

    /// The packet for a query that is encrypted with this half of a nonce.
    pub fn encrypt_with(&self, half: &[u8], query: &[u8]) -> (r: Result<Vec<u8>, String>)
        requires
            half@.len() == 12,
            query@.len() + 68 <= usize::MAX,
        ensures
            r matches Ok(packet) && packet@ == self.packet(half@, query@) && packet@.len()
                == query@.len() + 68,
            secretbox_open(
                secretbox(query@, full_nonce(half@), self.shared_key@),
                full_nonce(half@),
                self.shared_key@,
            ) == Some(query@),
    {
        let nonce = extend_nonce(half);
        let mut ciphertext: Vec<u8> = vec![0u8; 16 + query.len()];
        match seal(ciphertext.as_mut_slice(), query, &nonce, &self.shared_key) {
            Ok(()) => {},
            Err(_) => return Err("encrypt failed".to_owned()),
        }
        let mut packet: Vec<u8> = Vec::new();
        append(&mut packet, &self.client_magic);
        append(&mut packet, &self.client_pk);
        append(&mut packet, half);
        append(&mut packet, ciphertext.as_slice());
        assert(packet@ =~= self.packet(half@, query@));
        Ok(packet)
    }

    /// The packet for a query, encrypted with a nonce that is drawn at random.
    pub fn encrypt(&self, query: &[u8]) -> (r: Result<Vec<u8>, String>)
        requires
            query@.len() + 68 <= usize::MAX,
        ensures
            r matches Ok(packet) && exists|half: Seq<u8>|
                half.len() == 12 && packet@ == #[trigger] self.packet(half, query@)
                    && packet@.len() == query@.len() + 68 && secretbox_open(
                    secretbox(query@, full_nonce(half), self.shared_key@),
                    full_nonce(half),
                    self.shared_key@,
                ) == Some(query@),
    {
        let half = dryoc::rng::randombytes_buf(12);
        self.encrypt_with(half.as_slice(), query)
    }

    /// Decrypts an answer.
    pub fn decrypt(&self, data: &[u8]) -> (r: Result<Vec<u8>, String>)
        ensures
            match self.opened(data@) {
                Ok(plain) => r matches Ok(v) && v@ == plain,
                Err(e) => r matches Err(x) && x@ == e,
            },
            r matches Ok(v) ==> data@ == self.client_magic@ + data@.subrange(8, 20) + secretbox(
                v@,
                full_nonce(data@.subrange(8, 20)),
                self.shared_key@,
            ),
    {
        let n = data.len();
        if n < 37 {
            return Err("response too short".to_owned());
        }
        if !same_bytes(&data[0..8], &self.client_magic) {
            return Err("bad client magic".to_owned());
        }
        let nonce = extend_nonce(&data[8..20]);
        let encrypted = &data[20..n];
        let mut plaintext: Vec<u8> = vec![0u8; encrypted.len() - 16];
        match unseal(plaintext.as_mut_slice(), encrypted, &nonce, &self.shared_key) {
            Ok(()) => {
                assert(data@ =~= data@.subrange(0, 8) + data@.subrange(8, 20) + data@.subrange(
                    20,
                    n as int,
                ));
                Ok(plaintext)
            },
            Err(_) => Err("decrypt failed".to_owned()),
        }
    }
}

/// An answer that a server has encrypted with the shared key is read as what
/// the server meant, whatever half of a nonce it has used. That opening gives
/// back what was encrypted is known of every ciphertext that has been made.
pub proof fn lemma_answer_opens(
    session: DnscryptSession,
    half: Seq<u8>,
    ciphertext: Seq<u8>,
    answer: Seq<u8>,
)
    requires
        half.len() == 12,
        ciphertext.len() >= 17,
        secretbox_open(ciphertext, full_nonce(half), session.shared_key@) == Some(answer),
    ensures
        session.opened(session.client_magic@ + half + ciphertext) == Ok::<Seq<u8>, Seq<char>>(
            answer,
        ),
{
    let data = session.client_magic@ + half + ciphertext;
    assert(data.subrange(0, 8) =~= session.client_magic@);
    assert(data.subrange(8, 20) =~= half);
    assert(data.subrange(20, data.len() as int) =~= ciphertext);
}

/// A server that DNSCrypt queries can go to.
#[derive(Debug, Clone, Copy)]
pub struct DnscryptProvider {
    /// The public key, where it is known without a certificate.
    pub known_pk: Option<[u8; 32]>,
    pub addr: SocketAddr,
    pub provider_name: &'static str,
    pub client_magic: [u8; 8],
}

/// The known public key of the server that all providers share.
pub open spec fn known_server_key() -> Seq<u8> {
    seq![
        0xafu8,
        0x32,
        0xf5,
        0xd2,
        0xa9,
        0x34,
        0x12,
        0x97,
        0x9d,
        0xe3,
        0x65,
        0x6f,
        0x09,
        0xa9,
        0x1d,
        0x96,
        0x41,
        0x52,
        0xfa,
        0x9f,
        0x05,
        0x79,
        0xe8,
        0x8e,
        0x25,
        0xba,
        0x19,
        0xdb,
        0x69,
        0xf2,
        0x9e,
        0xcf,
    ]
}

/// The server for a provider: the same one, dct-de2, for all of them, on port
/// 53 of 82.165.61.52.
pub fn get_provider(provider: DnsProvider) -> (r: DnscryptProvider)
    ensures
        r.known_pk matches Some(pk) && pk@ == known_server_key(),
        r.addr == (SocketAddr { ip: Ipv4Addr { bits: 0x52A5_3D34 }, port: 53 }),
        r.provider_name@ == "2.dnscrypt-cert.dct-de2"@,
        r.client_magic@ == zeros(8),
{
    match provider {
        DnsProvider::Cloudflare | DnsProvider::Google | DnsProvider::Quad9 => {
            let pk = [
                0xafu8,
                0x32,
                0xf5,
                0xd2,
                0xa9,
                0x34,
                0x12,
                0x97,
                0x9d,
                0xe3,
                0x65,
                0x6f,
                0x09,
                0xa9,
                0x1d,
                0x96,
                0x41,
                0x52,
                0xfa,
                0x9f,
                0x05,
                0x79,
                0xe8,
                0x8e,
                0x25,
                0xba,
                0x19,
                0xdb,
                0x69,
                0xf2,
                0x9e,
                0xcf,
            ];
            assert(pk@ =~= known_server_key());
            let client_magic = [0u8; 8];
            assert(client_magic@ =~= zeros(8));
            DnscryptProvider {
                known_pk: Some(pk),
                addr: SocketAddr { ip: Ipv4Addr { bits: 0x52A5_3D34 }, port: 53 },
                provider_name: "2.dnscrypt-cert.dct-de2",
                client_magic,
            }
        },
    }
}

/// A server, its certificate, and the session with it.
#[derive(Debug)]
pub struct DnscryptPool {
    pub cert: DnscryptCert,
    pub session: Option<DnscryptSession>,
    /// When the certificate was fetched, on the clock of the sessions.
    pub last_cert_fetch: u64,
    pub addr: SocketAddr,
    pub provider_name: &'static str,
}

/// The certificate to use after a fetch: the one that was fetched, or one made
/// of the known key, or none, with the reason.
pub open spec fn chosen_cert(
    prov: DnscryptProvider,
    fetched: Result<DnscryptCert, String>,
) -> Result<DnscryptCert, Seq<char>> {
    match fetched {
        Ok(cert) => Ok(cert),
        Err(e) => match prov.known_pk {
            Some(pk) => Ok(
                DnscryptCert {
                    server_pk: pk,
                    client_magic: prov.client_magic,
                    serial: 0,
                    valid_until: 0,
                },
            ),
            None => Err("DNSCrypt cert fetch: "@ + e@),
        },
    }
}

/// A pool for a server, after its certificate has been fetched, or has not.
pub fn create_pool_for(
    prov: DnscryptProvider,
    fetched: Result<DnscryptCert, String>,
    now: u64,
) -> (r: Result<DnscryptPool, String>)
    ensures
        match chosen_cert(prov, fetched) {
            Ok(cert) => r == Ok::<DnscryptPool, String>(
                DnscryptPool {
                    cert,
                    session: None,
                    last_cert_fetch: now,
                    addr: prov.addr,
                    provider_name: prov.provider_name,
                },
            ),
            Err(e) => r matches Err(x) && x@ == e,
        },
{
    let cert = match fetched {
        Ok(cert) => cert,
        Err(e) => match prov.known_pk {
            Some(pk) => DnscryptCert {
                server_pk: pk,
                client_magic: prov.client_magic,
                serial: 0,
                valid_until: 0,
            },
            None => {
                let mut text = "DNSCrypt cert fetch: ".to_owned();
                text.append(e.as_str());
                return Err(text);
            },
        },
    };
    Ok(
        DnscryptPool {
            cert,
            session: None,
            last_cert_fetch: now,
            addr: prov.addr,
            provider_name: prov.provider_name,
        },
    )
}

/// A pool for a provider's server, after its certificate has been fetched, or
/// has not.
pub fn create_dnscrypt_pool(
    provider: DnsProvider,
    fetched: Result<DnscryptCert, String>,
    now: u64,
) -> (r: Result<DnscryptPool, String>)
    ensures
        r matches Ok(pool) && {
            &&& pool.session is None
            &&& pool.last_cert_fetch == now
            &&& pool.addr == (SocketAddr { ip: Ipv4Addr { bits: 0x52A5_3D34 }, port: 53 })
            &&& pool.provider_name@ == "2.dnscrypt-cert.dct-de2"@
            &&& match fetched {
                Ok(cert) => pool.cert == cert,
                Err(_) => {
                    &&& pool.cert.server_pk@ == known_server_key()
                    &&& pool.cert.client_magic@ == zeros(8)
                    &&& pool.cert.serial == 0
                    &&& pool.cert.valid_until == 0
                },
            }
        },
{
    create_pool_for(get_provider(provider), fetched, now)
}

impl DnscryptPool {
    /// Whether the certificate is too old to be used.
    pub open spec fn stale(self, now: u64) -> bool {
        elapsed(self.last_cert_fetch, now) > CERT_LIFETIME
    }

    /// Whether a certificate has to be fetched before the next query.
    pub fn needs_cert(&self, now: u64) -> (r: bool)
        ensures
            r == self.stale(now),
    {
        time_since(self.last_cert_fetch, now) > CERT_LIFETIME
    }

    /// The pool after `ensure_session` has had its way.
    pub open spec fn ready(
        self,
        before: DnscryptPool,
        refreshed: Option<Result<DnscryptCert, String>>,
        now: u64,
    ) -> bool {
        &&& self.addr == before.addr
        &&& self.provider_name == before.provider_name
        &&& match refreshed {
            Some(Ok(cert)) => self.cert == cert && self.last_cert_fetch == now,
            _ => self.cert == before.cert && self.last_cert_fetch == before.last_cert_fetch,
        }
        &&& if refreshed is None && before.session is Some && !before.session->0.expired(now) {
            self.session == before.session
        } else {
            self.session matches Some(session) && session.new_for(self.cert, now)
        }
    }

    /// Makes sure that there is a session to use. `refreshed` is what fetching
    /// the certificate has led to, where it was too old.
    pub fn ensure_session(
        &mut self,
        refreshed: Option<Result<DnscryptCert, String>>,
        now: u64,
    ) -> (r: Result<(), String>)
        requires
            refreshed is Some <==> old(self).stale(now),
        ensures
            match refreshed {
                Some(Err(e)) => {
                    &&& r matches Err(x) && x@ == "DNSCrypt cert refresh: "@ + e@
                    &&& *final(self) == *old(self)
                },
                _ => r is Ok && final(self).ready(*old(self), refreshed, now),
            },
    {
        if let Some(fetched) = refreshed {
            match fetched {
                Err(e) => {
                    let mut text = "DNSCrypt cert refresh: ".to_owned();
                    text.append(e.as_str());
                    return Err(text);
                },
                Ok(cert) => {
                    self.cert = cert;
                    self.last_cert_fetch = now;
                    self.session = None;
                },
            }
        }
        let usable = match self.session {
            Some(session) => !session.is_expired(now),
            None => false,
        };
        if !usable {
            match DnscryptSession::new(&self.cert, now) {
                Ok(session) => {
                    self.session = Some(session);
                },
                Err(e) => return Err(e),
            }
        }
        Ok(())
    }

    /// The packet that asks the server a query.
    pub fn query(
        &mut self,
        dns_query: &[u8],
        refreshed: Option<Result<DnscryptCert, String>>,
        now: u64,
    ) -> (r: Result<Vec<u8>, String>)
        requires
            dns_query@.len() + 68 <= usize::MAX,
            refreshed is Some <==> old(self).stale(now),
        ensures
            match refreshed {
                Some(Err(e)) => {
                    &&& r matches Err(x) && x@ == "DNSCrypt cert refresh: "@ + e@
                    &&& *final(self) == *old(self)
                },
                _ => {
                    &&& final(self).ready(*old(self), refreshed, now)
                    &&& final(self).session is Some
                    &&& r matches Ok(packet) && exists|half: Seq<u8>|
                        half.len() == 12 && packet@ == #[trigger] final(self).session->0.packet(
                            half,
                            dns_query@,
                        ) && secretbox_open(
                            secretbox(
                                dns_query@,
                                full_nonce(half),
                                final(self).session->0.shared_key@,
                            ),
                            full_nonce(half),
                            final(self).session->0.shared_key@,
                        ) == Some(dns_query@)
                },
            },
    {
        match self.ensure_session(refreshed, now) {
            Err(e) => Err(e),
            Ok(()) => match self.session {
                Some(session) => session.encrypt(dns_query),
                None => Err("no session".to_owned()),
            },
        }
    }

    /// What the server's reply says, if it can be read.
    pub fn resolve(&self, reply: Result<Vec<u8>, String>) -> (r: Option<Vec<u8>>)
        requires
            self.session is Some,
        ensures
            match reply {
                Ok(data) => match self.session->0.opened(data@) {
                    Ok(plain) => r matches Some(v) && v@ == plain,
                    Err(_) => r is None,
                },
                Err(_) => r is None,
            },
    {
        let data = match reply {
            Ok(data) => data,
            Err(_) => return None,
        };
        match self.session {
            Some(session) => match session.decrypt(data.as_slice()) {
                Ok(v) => Some(v),
                Err(_) => None,
            },
            None => None,
        }
    }
}

/// A pool never uses a session beyond its lifetime: after `ensure_session` has
/// succeeded, the session is there and not expired.
pub proof fn lemma_session_is_fresh(
    before: DnscryptPool,
    after: DnscryptPool,
    refreshed: Option<Result<DnscryptCert, String>>,
    now: u64,
)
    requires
        after.ready(before, refreshed, now),
    ensures
        after.session matches Some(session) && !session.expired(now),
{
}

/// Whether bytes are the name of a record: a pointer, or the labels of a name with
/// a zero byte behind them.
pub open spec fn is_record_name(bytes: Seq<u8>, name: Seq<u8>) -> bool {
    ||| bytes.len() == 2 && bytes[0] >= 0xC0
    ||| bytes == labels_from(name, 0) + seq![0u8] && short_labels(name, 0) && bytes[0] < 0xC0
}

/// A record.
pub open spec fn record_with(
    owner: Seq<u8>,
    kind: Seq<u8>,
    class_and_ttl: Seq<u8>,
    data: Seq<u8>,
) -> Seq<u8> {
    owner + kind + class_and_ttl + be16(data.len() as u16) + data
}

proof fn lemma_record_parts(
    a: Seq<u8>,
    owner: Seq<u8>,
    name: Seq<u8>,
    kind: Seq<u8>,
    class_and_ttl: Seq<u8>,
    data: Seq<u8>,
    b: Seq<u8>,
)
    requires
        is_record_name(owner, name),
        kind.len() == 2,
        class_and_ttl.len() == 6,
        data.len() <= 65535,
    ensures
        ({
            let record = record_with(owner, kind, class_and_ttl, data);
            let s = a + record + b;
            let n = (a.len() + owner.len()) as int;
            &&& record.len() == owner.len() + 10 + data.len()
            &&& owner.len() > 0
            &&& record_name_end(s, a.len() as int) == Some(n)
            &&& s[n] == kind[0] && s[n + 1] == kind[1]
            &&& be16_at(s, n + 8) == data.len()
            &&& s.subrange(n + 10, n + 10 + data.len()) == data
        }),
{
    let record = record_with(owner, kind, class_and_ttl, data);
    let s = a + record + b;
    let n = (a.len() + owner.len()) as int;
    assert(owner.len() > 0);
    assert(s[a.len() as int] == owner[0]);
    if owner[0] < 0xC0 {
        let rest = seq![0u8] + kind + class_and_ttl + be16(data.len() as u16) + data + b;
        assert(s =~= a + labels_from(name, 0) + rest);
        lemma_labels_walk(a, name, 0, rest);
    }
    let size = data.len() as u16;
    assert(s[n] == kind[0] && s[n + 1] == kind[1]);
    assert(s[n + 8] == be16(size)[0] && s[n + 9] == be16(size)[1]);
    lemma_be16_roundtrip(size);
    assert(s.subrange(n + 10, n + 10 + data.len()) =~= data);
}

/// Records that are not text records, and text records whose first string is
/// empty or cut off, are passed over, and the search goes on behind them.
pub proof fn lemma_records_are_passed_over(
    a: Seq<u8>,
    owner: Seq<u8>,
    name: Seq<u8>,
    kind: Seq<u8>,
    class_and_ttl: Seq<u8>,
    data: Seq<u8>,
    b: Seq<u8>,
    left: nat,
)
    requires
        is_record_name(owner, name),
        kind.len() == 2,
        class_and_ttl.len() == 6,
        data.len() <= 65535,
        kind != seq![0u8, 16] || data.len() == 0 || data[0] == 0 || 1 + data[0] > data.len(),
    ensures
        ({
            let record = record_with(owner, kind, class_and_ttl, data);
            let s = a + record + b;
            find_text(s, a.len() as int, left + 1) == find_text(
                s,
                (a.len() + record.len()) as int,
                left,
            )
        }),
{
    lemma_record_parts(a, owner, name, kind, class_and_ttl, data, b);
    let record = record_with(owner, kind, class_and_ttl, data);
    let s = a + record + b;
    let n = (a.len() + owner.len()) as int;
    if be16_at(s, n) == 16 {
        assert(kind =~= seq![0u8, 16]);
    }
}

/// The first string of the first text record that has one is found, whatever
/// stands behind it in the record and behind the record.
pub proof fn lemma_first_string_is_found(
    a: Seq<u8>,
    owner: Seq<u8>,
    name: Seq<u8>,
    class_and_ttl: Seq<u8>,
    text: Seq<u8>,
    more: Seq<u8>,
    b: Seq<u8>,
    left: nat,
)
    requires
        is_record_name(owner, name),
        class_and_ttl.len() == 6,
        0 < text.len() <= 255,
        1 + text.len() + more.len() <= 65535,
    ensures
        find_text(
            a + record_with(
                owner,
                seq![0u8, 16],
                class_and_ttl,
                seq![text.len() as u8] + text + more,
            ) + b,
            a.len() as int,
            left + 1,
        ) == CertScanView::Found(text),
{
    let data = seq![text.len() as u8] + text + more;
    lemma_record_parts(a, owner, name, seq![0u8, 16], class_and_ttl, data, b);
    assert(data[0] == text.len());
    assert(first_string(data) =~= text);
}

/// Questions are passed over one by one: a name, a zero byte, and four bytes.
pub proof fn lemma_questions_are_passed_over(
    a: Seq<u8>,
    name: Seq<u8>,
    kind_and_class: Seq<u8>,
    b: Seq<u8>,
    left: nat,
)
    requires
        short_labels(name, 0),
        kind_and_class.len() == 4,
    ensures
        ({
            let s = a + labels_from(name, 0) + seq![0u8] + kind_and_class + b;
            questions_end(s, a.len() as int, left + 1) == questions_end(
                s,
                (a.len() + labels_from(name, 0).len() + 5) as int,
                left,
            )
        }),
        questions_end(b, a.len() as int, 0) == Some(a.len() as int),
{
    let s = a + labels_from(name, 0) + seq![0u8] + kind_and_class + b;
    let rest = seq![0u8] + kind_and_class + b;
    assert(s =~= a + labels_from(name, 0) + rest);
    lemma_labels_walk(a, name, 0, rest);
}

/// The records of an answer are looked through behind its questions, as many of
/// each as its header says.
pub proof fn lemma_answer_is_looked_through(
    ids: Seq<u8>,
    questions: u16,
    records: u16,
    rest: Seq<u8>,
)
    requires
        ids.len() == 4,
        rest.len() >= 4,
    ensures
        ({
            let s = ids + be16(questions) + be16(records) + rest;
            cert_scan(s) == (match questions_end(s, 12, questions as nat) {
                None => CertScanView::Absent,
                Some(p) => find_text(s, p, records as nat),
            })
        }),
{
    let s = ids + be16(questions) + be16(records) + rest;
    lemma_read_in_row(ids, questions, 0, be16(records) + rest);
    assert(s =~= ids + be16(questions) + (be16(records) + rest));
    lemma_read_in_row(ids + be16(questions), records, 0, rest);
    assert(s =~= ids + be16(questions) + be16(records) + rest);
}

/// An answer without records has no text, and neither has one that is too short.
pub proof fn lemma_no_records(s: Seq<u8>, pos: int)
    ensures
        find_text(s, pos, 0) is Absent,
        s.len() < 12 ==> cert_scan(s) is Absent,
{
}

/// A name is asked for label by label, each with its length in front; the dots
/// between them are left out.
pub proof fn lemma_labels_of_a_name(label: Seq<u8>, rest: Seq<u8>)
    requires
        label.len() > 0,
        forall|i: int| 0 <= i < label.len() ==> label[i] != 46,
    ensures
        labels_from(label, 0) == seq![label.len() as u8] + label,
        labels_from(label + seq![46u8] + rest, 0) == seq![label.len() as u8] + label + labels_from(
            rest,
            0,
        ),
{
    let n = label.len() as int;
    lemma_label_ends(label, 0, n);
    assert(label.subrange(0, n) =~= label);
    let name = label + seq![46u8] + rest;
    assert forall|i: int| 0 <= i < n implies name[i] != 46 by {
        assert(name[i] == label[i]);
    }
    assert(name[n] == 46);
    lemma_label_ends(name, 0, n);
    assert(name.subrange(0, n) =~= label);
    lemma_labels_shift(label + seq![46u8], rest, 0);
    assert(name =~= label + seq![46u8] + rest);
}

proof fn lemma_label_ends(name: Seq<u8>, i: int, end: int)
    requires
        0 <= i <= end <= name.len(),
        forall|k: int| i <= k < end ==> name[k] != 46,
        end == name.len() || name[end] == 46,
    ensures
        label_end(name, i) == end,
    decreases end - i,
{
    if i < end {
        lemma_label_ends(name, i + 1, end);
    }
}

proof fn lemma_label_end_shift(a: Seq<u8>, b: Seq<u8>, i: int)
    requires
        0 <= i <= b.len(),
    ensures
        label_end(a + b, a.len() + i) == a.len() + label_end(b, i),
    decreases b.len() - i,
{
    if i < b.len() {
        assert((a + b)[a.len() + i] == b[i]);
        if b[i] != 46 {
            lemma_label_end_shift(a, b, i + 1);
        }
    }
}

proof fn lemma_labels_shift(a: Seq<u8>, b: Seq<u8>, i: int)
    requires
        0 <= i <= b.len(),
    ensures
        labels_from(a + b, a.len() + i) == labels_from(b, i),
    decreases b.len() - i,
{
    let n = a.len() as int;
    lemma_label_end_shift(a, b, i);
    lemma_label_end_bounds(b, i);
    let end = label_end(b, i);
    if end > i {
        assert((a + b).subrange(n + i, n + end) =~= b.subrange(i, end));
    }
    if i < b.len() && end < b.len() {
        lemma_labels_shift(a, b, end + 1);
    }
}

/// The query for a certificate, byte for byte but for the labels of the name: one
/// question, for text records.
pub proof fn lemma_cert_query_bytes(name: Seq<u8>)
    ensures
        cert_query(name) == seq![0u8, 0, 1, 0, 0, 1, 0, 0, 0, 0, 0, 0] + labels_from(name, 0)
            + seq![0u8, 0, 16, 0, 1],
{
}

/// A certificate is read back: its key, its marker for clients and its serial
/// number stand in their places, whatever stands between and behind.
pub proof fn lemma_certificate_is_read_back(
    cert: DnscryptCert,
    head: Seq<u8>,
    serial: u32,
    times: Seq<u8>,
    key: Seq<u8>,
    magic: Seq<u8>,
    rest: Seq<u8>,
)
    requires
        head.len() == 52,
        times.len() == 12,
        key.len() == 32,
        magic.len() == 8,
        rest.len() >= 12,
    ensures
        ({
            let bytes = seq![68u8, 78, 83, 67] + head + be32(serial) + times + key + magic + rest;
            &&& is_cert(bytes)
            &&& cert_holds(cert, bytes) <==> cert.server_pk@ == key && cert.client_magic@ == magic
                && cert.serial == serial && cert.valid_until == 0
        }),
{
    let bytes = seq![68u8, 78, 83, 67] + head + be32(serial) + times + key + magic + rest;
    let front = seq![68u8, 78, 83, 67] + head;
    assert(front.len() == 56);
    assert(bytes.subrange(0, 4) =~= seq![68u8, 78, 83, 67]);
    assert(bytes.subrange(72, 104) =~= key);
    assert(bytes.subrange(104, 112) =~= magic);
    lemma_read_in_row(front, 0, serial, times + key + magic + rest);
    assert(bytes =~= front + be32(serial) + (times + key + magic + rest));
}

/// Other bytes are no certificate.
pub proof fn lemma_other_bytes_are_no_certificate(bytes: Seq<u8>)
    requires
        bytes.len() < 124 || bytes.subrange(0, 4) != seq![68u8, 78, 83, 67],
    ensures
        !is_cert(bytes),
{
}

/// A packet to the server tells it the marker, our public key and the drawn half
/// of the nonce, and carries the query encrypted with the shared key.
pub proof fn lemma_packet_parts(session: DnscryptSession, half: Seq<u8>, query: Seq<u8>)
    requires
        half.len() == 12,
    ensures
        ({
            let packet = session.packet(half, query);
            &&& packet.subrange(0, 8) == session.client_magic@
            &&& packet.subrange(8, 40) == session.client_pk@
            &&& packet.subrange(40, 52) == half
            &&& packet.subrange(52, packet.len() as int) == secretbox(
                query,
                half + seq![0u8, 0, 0, 0, 0, 0, 0, 0, 0, 0, 0, 0],
                session.shared_key@,
            )
        }),
{
    let packet = session.packet(half, query);
    assert(full_nonce(half) =~= half + seq![0u8, 0, 0, 0, 0, 0, 0, 0, 0, 0, 0, 0]);
    assert(packet.subrange(0, 8) =~= session.client_magic@);
    assert(packet.subrange(8, 40) =~= session.client_pk@);
    assert(packet.subrange(40, 52) =~= half);
    assert(packet.subrange(52, packet.len() as int) =~= secretbox(
        query,
        full_nonce(half),
        session.shared_key@,
    ));
}

/// An answer is refused if it is too short, has another marker, or cannot be
/// opened with the shared key; otherwise it says what it holds.
pub proof fn lemma_answers_are_judged(
    session: DnscryptSession,
    marker: Seq<u8>,
    half: Seq<u8>,
    ciphertext: Seq<u8>,
)
    requires
        marker.len() == 8,
        half.len() == 12,
    ensures
        ({
            let answer = session.opened(marker + half + ciphertext);
            let plain = secretbox_open(
                ciphertext,
                half + seq![0u8, 0, 0, 0, 0, 0, 0, 0, 0, 0, 0, 0],
                session.shared_key@,
            );
            &&& ciphertext.len() < 17 ==> answer == Err::<Seq<u8>, Seq<char>>("response too short"@)
            &&& ciphertext.len() >= 17 && marker != session.client_magic@ ==> answer == Err::<
                Seq<u8>,
                Seq<char>,
            >("bad client magic"@)
            &&& ciphertext.len() >= 17 && marker == session.client_magic@ && plain is None ==> answer
                == Err::<Seq<u8>, Seq<char>>("decrypt failed"@)
            &&& ciphertext.len() >= 17 && marker == session.client_magic@ && plain is Some ==> answer
                == Ok::<Seq<u8>, Seq<char>>(plain->0)
        }),
{
    let data = marker + half + ciphertext;
    assert(full_nonce(half) =~= half + seq![0u8, 0, 0, 0, 0, 0, 0, 0, 0, 0, 0, 0]);
    assert(data.subrange(0, 8) =~= marker);
    assert(data.subrange(8, 20) =~= half);
    assert(data.subrange(20, data.len() as int) =~= ciphertext);
}

/// Keys are used for an hour and certificates for a day, to the last nanosecond
/// and not beyond; a clock that goes back makes none older.
pub proof fn lemma_lifetimes(session: DnscryptSession, pool: DnscryptPool, now: u64)
    ensures
        session.expired(now) <==> now > session.created + 3_600_000_000_000,
        pool.stale(now) <==> now > pool.last_cert_fetch + 86_400_000_000_000,
{
}

/// A fetched certificate is used as it is. Without one, the known key of the
/// server stands in for it, and without that there is none.
pub proof fn lemma_certificate_choice(
    prov: DnscryptProvider,
    cert: DnscryptCert,
    e: String,
)
    ensures
        chosen_cert(prov, Ok(cert)) == Ok::<DnscryptCert, Seq<char>>(cert),
        prov.known_pk matches Some(pk) ==> (chosen_cert(prov, Err(e)) matches Ok(c) && c.server_pk
            == pk && c.client_magic == prov.client_magic && c.serial == 0 && c.valid_until == 0),
        prov.known_pk is None ==> chosen_cert(prov, Err(e)) == Err::<DnscryptCert, Seq<char>>(
            "DNSCrypt cert fetch: "@ + e@,
        ),
{
}

/// A pool that is ready uses a session that has been made for its certificate: the
/// one from before as long as that and the certificate are not too old, and else
/// a new one, which names a key of its own and shares a key with the server.
pub proof fn lemma_pool_session(
    before: DnscryptPool,
    after: DnscryptPool,
    refreshed: Option<Result<DnscryptCert, String>>,
    now: u64,
)
    requires
        after.ready(before, refreshed, now),
    ensures
        after.addr == before.addr,
        refreshed matches Some(Ok(cert)) ==> after.cert == cert && after.last_cert_fetch == now,
        refreshed is None ==> after.cert == before.cert && after.last_cert_fetch
            == before.last_cert_fetch,
        (refreshed is None && (before.session matches Some(s) && now <= s.created
            + 3_600_000_000_000)) ==> after.session == before.session,
        !(refreshed is None && (before.session matches Some(s) && now <= s.created
            + 3_600_000_000_000)) ==> (after.session matches Some(s) && s.created == now
            && s.client_magic@ == after.cert.client_magic@ && exists|key: Seq<u8>|
            key.len() == 32 && s.client_pk@ == #[trigger] box_public_key(key) && s.shared_key@
                == box_shared_key(after.cert.server_pk@, key)),
{
    if !(refreshed is None && before.session is Some && !before.session->0.expired(now)) {
        let s = after.session->0;
        let key = choose|key: Seq<u8>|
            key.len() == 32 && #[trigger] s.made_for(after.cert, key, now);
        assert(s.client_pk@ == box_public_key(key));
    }
}

/// An answer is taken for a certificate exactly if it came, its text is found, and
/// the text is one.
pub proof fn lemma_answered(data: Seq<u8>)
    ensures
        answered_cert(None) is None,
        answered_cert(Some(data)) matches Some(bytes) ==> cert_scan(data) == CertScanView::Found(
            bytes,
        ) && is_cert(bytes),
        (cert_scan(data) matches CertScanView::Found(bytes) && is_cert(bytes)) ==> answered_cert(
            Some(data),
        ) is Some,
{
}

/// A new session names the public key of some secret key, shares with the server
/// the key that belongs to that and to the server's, and counts from now.
pub proof fn lemma_new_session(session: DnscryptSession, cert: DnscryptCert, now: u64)
    requires
        session.new_for(cert, now),
    ensures
        session.created == now,
        session.client_magic@ == cert.client_magic@,
        exists|key: Seq<u8>|
            key.len() == 32 && session.client_pk@ == #[trigger] box_public_key(key)
                && session.shared_key@ == box_shared_key(cert.server_pk@, key),
{
    let key = choose|key: Seq<u8>|
        key.len() == 32 && #[trigger] session.made_for(cert, key, now);
    assert(session.client_pk@ == box_public_key(key));
}

/// The views of scans and of answers hold what these hold.
pub proof fn lemma_scan_views(bytes: Vec<u8>)
    ensures
        CertScan::Found(bytes)@ == CertScanView::Found(bytes@),
        CertScan::Absent@ == CertScanView::Absent,
        CertScan::Overrun@ == CertScanView::Overrun,
        reply_view(Some(bytes)) == Some(bytes@),
        reply_view(None) is None,
{
}

} // verus!
