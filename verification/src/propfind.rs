//! Reading a WebDAV `PROPFIND` multistatus response.
//!
//! The body is read as UTF-8 bytes. Every `response` element (in any
//! namespace prefix) describes one resource; the first one is the listed
//! collection itself and is left out. Of each other response the entry takes
//! the last segment of its `href` (percent-decoded) as its name, whether it
//! has a `collection` resource type, and the text of its
//! `getcontentlength`, `getlastmodified` and `getcontenttype` properties.

use vstd::prelude::*;
use vstd::utf8::{decode_utf8, encode_utf8, valid_utf8};

use crate::webdav::DavEntry;

verus! {

// ── Lexical model ───────────────────────────────────────────

/// The bytes of an ASCII text.
pub open spec fn ascii(s: Seq<char>) -> Seq<u8> {
    s.map_values(|c: char| c as u8)
}

/// A byte of an XML name other than `:` (letters, digits, `_`, `-`, `.`).
pub open spec fn is_name_byte(c: u8) -> bool {
    (48 <= c <= 57) || (65 <= c <= 90) || (97 <= c <= 122) || c == 95 || c == 45 || c == 46
}

/// A byte of a qualified name (a name byte or `:`).
pub open spec fn is_qname_byte(c: u8) -> bool {
    is_name_byte(c) || c == 58
}

/// Length of the run of qualified-name bytes that starts at `j`.
pub open spec fn qname_len(b: Seq<u8>, j: int) -> int
    decreases b.len() - j,
{
    if 0 <= j < b.len() && is_qname_byte(b[j]) {
        1 + qname_len(b, j + 1)
    } else {
        0
    }
}

/// The qualified name `q` has local name `l`: it is `l`, or ends in `:l`.
pub open spec fn local_name_is(q: Seq<u8>, l: Seq<u8>) -> bool {
    q == l || (q.len() > l.len() && q[q.len() - l.len() - 1] == 58 && q.subrange(
        q.len() - l.len(),
        q.len() as int,
    ) == l)
}

/// A start tag (or empty-element tag) with local name `l` begins at `i`.
pub open spec fn start_tag_at(b: Seq<u8>, i: int, l: Seq<u8>) -> bool {
    let n = qname_len(b, i + 1);
    &&& 0 <= i
    &&& i < b.len()
    &&& b[i] == 60
    &&& n > 0
    &&& i + 1 + n < b.len()
    &&& local_name_is(b.subrange(i + 1, i + 1 + n), l)
}

/// An end tag `</..l>` with local name `l` begins at `i`.
pub open spec fn end_tag_at(b: Seq<u8>, i: int, l: Seq<u8>) -> bool {
    let n = qname_len(b, i + 2);
    &&& 0 <= i
    &&& i + 1 < b.len()
    &&& b[i] == 60
    &&& b[i + 1] == 47
    &&& n > 0
    &&& i + 2 + n < b.len()
    &&& b[i + 2 + n] == 62
    &&& local_name_is(b.subrange(i + 2, i + 2 + n), l)
}

/// The first position `k` in `from..len` with `p(k)`, or -1.
pub open spec fn first_pos(len: int, from: int, p: spec_fn(int) -> bool) -> int
    decreases len - from,
{
    if from >= len {
        -1
    } else if p(from) {
        from
    } else {
        first_pos(len, from + 1, p)
    }
}

/// The first start tag with local name `l` at or after `from`, or -1.
pub open spec fn find_start(b: Seq<u8>, from: int, l: Seq<u8>) -> int {
    first_pos(b.len() as int, from, start_tag_pred(b, l))
}

/// Positions where a start tag with local name `l` begins.
pub open spec fn start_tag_pred(b: Seq<u8>, l: Seq<u8>) -> spec_fn(int) -> bool {
    |k: int| start_tag_at(b, k, l)
}

/// Positions where an end tag with local name `l` begins.
pub open spec fn end_tag_pred(b: Seq<u8>, l: Seq<u8>) -> spec_fn(int) -> bool {
    |k: int| end_tag_at(b, k, l)
}

/// Positions that hold byte `c`.
pub open spec fn byte_pred(b: Seq<u8>, c: u8) -> spec_fn(int) -> bool {
    |k: int| b[k] == c
}

/// The first end tag with local name `l` at or after `from`, or -1.
pub open spec fn find_end(b: Seq<u8>, from: int, l: Seq<u8>) -> int {
    first_pos(b.len() as int, from, end_tag_pred(b, l))
}

/// The first occurrence of byte `c` at or after `from`, or -1.
pub open spec fn find_byte(b: Seq<u8>, from: int, c: u8) -> int {
    first_pos(b.len() as int, from, byte_pred(b, c))
}

/// The text of the first element with local name `l`: what follows its
/// start tag up to the next `<` (or the end); empty for an empty-element
/// tag; `None` when there is no such element.
pub open spec fn element_text(b: Seq<u8>, l: Seq<u8>) -> Option<Seq<u8>> {
    let p = find_start(b, 0, l);
    if p < 0 {
        None
    } else {
        let g = find_byte(b, p, 62);
        if g < 0 {
            None
        } else if b[g - 1] == 47 {
            Some(Seq::empty())
        } else {
            let e = find_byte(b, g + 1, 60);
            let stop = if e < 0 { b.len() as int } else { e };
            Some(b.subrange(g + 1, stop))
        }
    }
}

/// `first_pos` finds a position in range that satisfies `p`, with none before it.
pub proof fn lemma_first_pos(len: int, from: int, p: spec_fn(int) -> bool)
    requires
        0 <= from,
    ensures
        first_pos(len, from, p) == -1 || (from <= first_pos(len, from, p) < len && p(
            first_pos(len, from, p),
        )),
        forall|k: int|
            #![trigger p(k)]
            from <= k < len && (first_pos(len, from, p) == -1 || k < first_pos(len, from, p)) ==> !p(k),
    decreases len - from,
{
    if from < len && !p(from) {
        lemma_first_pos(len, from + 1, p);
    }
}

/// The `response` blocks of the body from `from` on: each runs from a
/// `response` start tag to the next `response` end tag.
pub open spec fn response_blocks(b: Seq<u8>, from: int) -> Seq<Seq<u8>>
    decreases b.len() - from,
{
    let r = ascii("response"@);
    let p = find_start(b, from, r);
    if from < 0 || p < 0 {
        Seq::empty()
    } else {
        let q = find_end(b, p + 1, r);
        if q < 0 {
            Seq::empty()
        } else {
            proof {
                lemma_first_pos(b.len() as int, from, start_tag_pred(b, r));
                lemma_first_pos(b.len() as int, p + 1, end_tag_pred(b, r));
            }
            seq![b.subrange(p, q)] + response_blocks(b, q + 1)
        }
    }
}

/// The UTF-8 text of `bytes`, empty when they are not valid UTF-8.
pub open spec fn text_of(bytes: Seq<u8>) -> Seq<char> {
    if valid_utf8(bytes) {
        decode_utf8(bytes)
    } else {
        Seq::empty()
    }
}

/// `h` without its trailing `/` bytes.
pub open spec fn trim_end_slash_bytes(h: Seq<u8>) -> Seq<u8>
    decreases h.len(),
{
    if h.len() > 0 && h.last() == 47 {
        trim_end_slash_bytes(h.drop_last())
    } else {
        h
    }
}

/// Index of the last `/` in `h`, or -1.
pub open spec fn last_slash(h: Seq<u8>) -> int
    decreases h.len(),
{
    if h.len() == 0 {
        -1
    } else if h.last() == 47 {
        h.len() - 1
    } else {
        last_slash(h.drop_last())
    }
}

/// The last segment of an `href`: the bytes after its last `/`, trailing
/// `/` ignored.
pub open spec fn href_segment(h: Seq<u8>) -> Seq<u8> {
    let t = trim_end_slash_bytes(h);
    t.subrange(last_slash(t) + 1, t.len() as int)
}

/// The value of a decimal number of at most `u64::MAX`, or 0 when `d` is
/// empty, holds a non-digit, or is larger.
pub open spec fn decimal_value(d: Seq<u8>) -> nat {
    if d.len() > 0 && (forall|i: int| 0 <= i < d.len() ==> 48 <= #[trigger] d[i] <= 57) && digits_value(d)
        <= u64::MAX {
        digits_value(d)
    } else {
        0
    }
}

/// The value of a sequence of decimal digits.
pub open spec fn digits_value(d: Seq<u8>) -> nat
    decreases d.len(),
{
    if d.len() == 0 {
        0
    } else {
        digits_value(d.drop_last()) * 10 + (d.last() - 48) as nat
    }
}

/// A hexadecimal digit byte (either case).
pub open spec fn is_hex_byte(c: u8) -> bool {
    (48 <= c <= 57) || (65 <= c <= 70) || (97 <= c <= 102)
}

/// The value of a hexadecimal digit byte.
pub open spec fn hex_value(c: u8) -> int {
    if c <= 57 {
        c - 48
    } else if c <= 70 {
        c - 55
    } else {
        c - 87
    }
}

/// Percent-decoding of bytes: each `%` followed by two hexadecimal digits
/// becomes the byte they spell; every other byte (a lone `%` too) stays.
pub open spec fn percent_decoded(b: Seq<u8>) -> Seq<u8>
    decreases b.len(),
{
    if b.len() == 0 {
        b
    } else if b[0] == 37 && b.len() >= 3 && is_hex_byte(b[1]) && is_hex_byte(b[2]) {
        seq![(hex_value(b[1]) * 16 + hex_value(b[2])) as u8] + percent_decoded(b.subrange(3, b.len() as int))
    } else {
        seq![b[0]] + percent_decoded(b.drop_first())
    }
}

/// The characters of `s` after percent-decoding its UTF-8 bytes, as
/// `urlencoding::decode` computes them; `None` when the decoded bytes are not
/// valid UTF-8.
pub open spec fn url_decoded(s: Seq<char>) -> Option<Seq<char>> {
    let d = percent_decoded(encode_utf8(s));
    if valid_utf8(d) {
        Some(decode_utf8(d))
    } else {
        None
    }
}

/// The entry's name: the decoded last `href` segment (the raw segment when
/// it does not decode).
pub open spec fn entry_name(block: Seq<u8>) -> Seq<char> {
    let href = match element_text(block, ascii("href"@)) {
        Some(h) => h,
        None => Seq::empty(),
    };
    let seg = text_of(href_segment(href));
    match url_decoded(seg) {
        Some(d) => d,
        None => seg,
    }
}

/// The text of a property, empty when the block lacks it.
pub open spec fn property_text(block: Seq<u8>, l: Seq<u8>) -> Seq<char> {
    match element_text(block, l) {
        Some(t) => text_of(t),
        None => Seq::empty(),
    }
}

/// `e` is the entry that the `response` block describes.
pub open spec fn entry_of_block(e: DavEntry, block: Seq<u8>) -> bool {
    &&& e.name@ == entry_name(block)
    &&& e.is_collection == (find_start(block, 0, ascii("collection"@)) >= 0)
    &&& e.size as nat == match element_text(block, ascii("getcontentlength"@)) {
        Some(t) => decimal_value(t),
        None => 0,
    }
    &&& e.last_modified@ == property_text(block, ascii("getlastmodified"@))
    &&& e.content_type@ == property_text(block, ascii("getcontenttype"@))
}

} // verus!

verus! {

/// Percent-decode `s`.
///
/// Calls `urlencoding::decode`: each `%XX` with two hex digits becomes that
/// byte, everything else stays, and the bytes must form UTF-8 (else `None`);
/// that is [`url_decoded`]. A text without `%` decodes to itself (the crate
/// returns it borrowed, unchanged).
#[verifier::external_body]
fn url_decode(s: &str) -> (r: Option<String>)
    ensures
        crate::manifest::opt_view(r) == url_decoded(s@),
        !s@.contains('%') ==> crate::manifest::opt_view(r) == Some(s@),
{
    match urlencoding::decode(s) {
        Ok(d) => Some(d.into_owned()),
        Err(_) => None,
    }
}

/// The UTF-8 text of `bytes`, or `None` when they are not valid UTF-8.
///
/// Calls `std::str::from_utf8`, which accepts exactly the valid UTF-8
/// sequences and decodes them.
#[verifier::external_body]
fn utf8_text(bytes: &[u8]) -> (r: Option<String>)
    ensures
        r is Some <==> valid_utf8(bytes@),
        r matches Some(s) ==> s@ == decode_utf8(bytes@),
{
    match std::str::from_utf8(bytes) {
        Ok(s) => Some(s.to_string()),
        Err(_) => None,
    }
}

} // verus!

verus! {

/// `first_pos` from `from` equals `first_pos` from `k` when nothing in
/// between satisfies `p`.
proof fn lemma_first_pos_skip(len: int, from: int, k: int, p: spec_fn(int) -> bool)
    requires
        from <= k,
        forall|j: int| #![trigger p(j)] from <= j < k && j < len ==> !p(j),
    ensures
        first_pos(len, from, p) == first_pos(len, k, p),
    decreases k - from,
{
    if from < k {
        lemma_first_pos_skip(len, from + 1, k, p);
    }
}

fn qname_byte(c: u8) -> (r: bool)
    ensures
        r == is_qname_byte(c),
{
    (48 <= c && c <= 57) || (65 <= c && c <= 90) || (97 <= c && c <= 122) || c == 95 || c == 45 || c == 46
        || c == 58
}

/// Length of the run of qualified-name bytes that starts at `j`.
fn qname_length(b: &[u8], j: usize) -> (r: usize)
    ensures
        r as int == qname_len(b@, j as int),
        j + r <= b@.len() || r == 0,
{
    let n = b.len();
    if j >= n {
        return 0;
    }
    let mut k = j;
    while k < n && qname_byte(b[k])
        invariant
            j <= k <= n,
            n == b@.len(),
            qname_len(b@, j as int) == (k - j) + qname_len(b@, k as int),
        decreases n - k,
    {
        k = k + 1;
    }
    k - j
}

/// Whether `b[start..start + n]` has local name `l`.
fn local_name_matches(b: &[u8], start: usize, n: usize, l: &[u8]) -> (r: bool)
    requires
        start + n <= b@.len(),
    ensures
        r == local_name_is(b@.subrange(start as int, start + n), l@),
{
    let ghost q = b@.subrange(start as int, start + n);
    let blen = b.len();
    let m = l.len();
    if n < m {
        assert(q != l@);
        return false;
    }
    // The last m bytes must be l.
    let off: usize = start + (n - m);
    let mut i: usize = 0;
    while i < m
        invariant
            m == l@.len(),
            m <= n,
            q == b@.subrange(start as int, start + n),
            off == start + (n - m),
            start + n <= b@.len(),
            blen == b@.len(),
            i <= m,
            forall|t: int| 0 <= t < i ==> b@[off + t] == l@[t],
        decreases m - i,
    {
        if b[off + i] != l[i] {
            proof {
                assert(q.subrange(n - m, n as int)[i as int] == b@[off + i]);
                if q == l@ {
                    assert(n == m);
                }
            }
            return false;
        }
        i = i + 1;
    }
    assert(q.subrange(n - m, n as int) =~= l@);
    if n == m {
        assert(q =~= l@);
        true
    } else {
        b[off - 1] == 58
    }
}

/// Whether a start tag with local name `l` begins at `i`.
fn start_tag_here(b: &[u8], i: usize, l: &[u8]) -> (r: bool)
    requires
        i < b@.len(),
    ensures
        r == start_tag_at(b@, i as int, l@),
{
    if b[i] != 60 {
        return false;
    }
    let n = qname_length(b, i + 1);
    if n == 0 || i + 1 + n >= b.len() {
        return false;
    }
    local_name_matches(b, i + 1, n, l)
}

/// Whether an end tag with local name `l` begins at `i`.
fn end_tag_here(b: &[u8], i: usize, l: &[u8]) -> (r: bool)
    requires
        i < b@.len(),
    ensures
        r == end_tag_at(b@, i as int, l@),
{
    if b[i] != 60 || i + 1 >= b.len() || b[i + 1] != 47 {
        return false;
    }
    let n = qname_length(b, i + 2);
    if n == 0 || i + 2 + n >= b.len() || b[i + 2 + n] != 62 {
        return false;
    }
    local_name_matches(b, i + 2, n, l)
}

/// The first start tag with local name `l` at or after `from`.
fn find_start_tag(b: &[u8], from: usize, l: &[u8]) -> (r: Option<usize>)
    ensures
        match r {
            Some(k) => k as int == find_start(b@, from as int, l@) && k < b@.len(),
            None => find_start(b@, from as int, l@) == -1,
        },
{
    let ghost p = start_tag_pred(b@, l@);
    let n = b.len();
    let mut k = from;
    while k < n
        invariant
            from <= k,
            n == b@.len(),
            p == start_tag_pred(b@, l@),
            forall|j: int| #![trigger p(j)] from <= j < k && j < n ==> !p(j),
        decreases n - k,
    {
        if start_tag_here(b, k, l) {
            proof {
                lemma_first_pos_skip(n as int, from as int, k as int, p);
            }
            return Some(k);
        }
        k = k + 1;
    }
    proof {
        lemma_first_pos_skip(n as int, from as int, k as int, p);
    }
    None
}

/// The first end tag with local name `l` at or after `from`.
fn find_end_tag(b: &[u8], from: usize, l: &[u8]) -> (r: Option<usize>)
    ensures
        match r {
            Some(k) => k as int == find_end(b@, from as int, l@) && k < b@.len(),
            None => find_end(b@, from as int, l@) == -1,
        },
{
    let ghost p = end_tag_pred(b@, l@);
    let n = b.len();
    let mut k = from;
    while k < n
        invariant
            from <= k,
            n == b@.len(),
            p == end_tag_pred(b@, l@),
            forall|j: int| #![trigger p(j)] from <= j < k && j < n ==> !p(j),
        decreases n - k,
    {
        if end_tag_here(b, k, l) {
            proof {
                lemma_first_pos_skip(n as int, from as int, k as int, p);
            }
            return Some(k);
        }
        k = k + 1;
    }
    proof {
        lemma_first_pos_skip(n as int, from as int, k as int, p);
    }
    None
}

/// The first occurrence of byte `c` at or after `from`.
fn find_byte_at(b: &[u8], from: usize, c: u8) -> (r: Option<usize>)
    ensures
        match r {
            Some(k) => k as int == find_byte(b@, from as int, c) && from <= k < b@.len(),
            None => find_byte(b@, from as int, c) == -1,
        },
{
    let ghost p = byte_pred(b@, c);
    let n = b.len();
    let mut k = from;
    while k < n
        invariant
            from <= k,
            n == b@.len(),
            p == byte_pred(b@, c),
            forall|j: int| #![trigger p(j)] from <= j < k && j < n ==> !p(j),
        decreases n - k,
    {
        if b[k] == c {
            proof {
                lemma_first_pos_skip(n as int, from as int, k as int, p);
            }
            return Some(k);
        }
        k = k + 1;
    }
    proof {
        lemma_first_pos_skip(n as int, from as int, k as int, p);
    }
    None
}

/// A copy of `b[from..to]`.
fn copy_range(b: &[u8], from: usize, to: usize) -> (r: Vec<u8>)
    requires
        from <= to <= b@.len(),
    ensures
        r@ == b@.subrange(from as int, to as int),
{
    let mut r: Vec<u8> = Vec::new();
    let mut k = from;
    while k < to
        invariant
            from <= k <= to,
            to <= b@.len(),
            r@ == b@.subrange(from as int, k as int),
        decreases to - k,
    {
        r.push(b[k]);
        assert(b@.subrange(from as int, k + 1) =~= b@.subrange(from as int, k as int).push(b@[k as int]));
        k = k + 1;
    }
    r
}

/// The text of the first element with local name `l` (see [`element_text`]).
fn element_text_of(b: &[u8], l: &[u8]) -> (r: Option<Vec<u8>>)
    ensures
        match r {
            Some(v) => element_text(b@, l@) == Some(v@),
            None => element_text(b@, l@) is None,
        },
{
    let p = match find_start_tag(b, 0, l) {
        Some(p) => p,
        None => {
            return None;
        },
    };
    let g = match find_byte_at(b, p, 62) {
        Some(g) => g,
        None => {
            return None;
        },
    };
    proof {
        lemma_first_pos(b@.len() as int, 0, start_tag_pred(b@, l@));
        assert(start_tag_at(b@, p as int, l@));
        assert(b@[p as int] == 60);
        lemma_first_pos(b@.len() as int, p as int, byte_pred(b@, 62));
        assert(b@[g as int] == 62);
    }
    if b[g - 1] == 47 {
        assert(element_text(b@, l@) == Some(Seq::<u8>::empty()));
        return Some(Vec::new());
    }
    let stop = match find_byte_at(b, g + 1, 60) {
        Some(e) => e,
        None => b.len(),
    };
    Some(copy_range(b, g + 1, stop))
}

} // verus!

verus! {

/// The last segment of an `href` (see [`href_segment`]).
fn href_segment_of(h: &[u8]) -> (r: Vec<u8>)
    ensures
        r@ == href_segment(h@),
{
    let mut e = h.len();
    assert(h@.take(e as int) =~= h@);
    while e > 0 && h[e - 1] == 47
        invariant
            e <= h@.len(),
            trim_end_slash_bytes(h@) == trim_end_slash_bytes(h@.take(e as int)),
        decreases e,
    {
        assert(h@.take(e as int).drop_last() =~= h@.take(e - 1));
        e = e - 1;
    }
    let ghost t = h@.take(e as int);
    assert(trim_end_slash_bytes(t) == t);
    let mut k = e;
    assert(t.take(k as int) =~= t);
    while k > 0 && h[k - 1] != 47
        invariant
            k <= e <= h@.len(),
            t == h@.take(e as int),
            last_slash(t) == last_slash(t.take(k as int)),
        decreases k,
    {
        assert(t.take(k as int).drop_last() =~= t.take(k - 1));
        k = k - 1;
    }
    proof {
        if k > 0 {
            assert(t.take(k as int).last() == 47);
        } else {
            assert(t.take(0) =~= Seq::<u8>::empty());
        }
    }
    let r = copy_range(h, k, e);
    assert(r@ =~= t.subrange(last_slash(t) + 1, t.len() as int));
    r
}

/// Every prefix of a digit sequence is worth at most the whole.
proof fn lemma_digits_value_prefix(d: Seq<u8>, k: int)
    requires
        0 <= k <= d.len(),
        forall|i: int| 0 <= i < d.len() ==> 48 <= #[trigger] d[i] <= 57,
    ensures
        digits_value(d.take(k)) <= digits_value(d),
    decreases d.len() - k,
{
    if k < d.len() {
        let e = d.take(k + 1);
        assert(e.drop_last() =~= d.take(k));
        assert forall|i: int| 0 <= i < e.len() implies 48 <= #[trigger] e[i] <= 57 by {
            assert(e[i] == d[i]);
        }
        lemma_digits_value_prefix(d, k + 1);
    } else {
        assert(d.take(k) =~= d);
    }
}

/// The value of a decimal number (see [`decimal_value`]).
fn decimal_of(d: &[u8]) -> (r: u64)
    ensures
        r as nat == decimal_value(d@),
{
    let n = d.len();
    if n == 0 {
        return 0;
    }
    let mut v: u64 = 0;
    let mut i: usize = 0;
    assert(d@.take(0) =~= Seq::<u8>::empty());
    while i < n
        invariant
            n == d@.len(),
            n > 0,
            i <= n,
            v as nat == digits_value(d@.take(i as int)),
            forall|j: int| 0 <= j < i ==> 48 <= #[trigger] d@[j] <= 57,
        decreases n - i,
    {
        let c = d[i];
        if c < 48 || c > 57 {
            return 0;
        }
        assert(d@.take(i + 1).drop_last() =~= d@.take(i as int));
        let step = match v.checked_mul(10) {
            Some(x) => x.checked_add((c - 48) as u64),
            None => None,
        };
        match step {
            Some(x) => {
                v = x;
            },
            None => {
                proof {
                    if forall|j: int| 0 <= j < n ==> 48 <= #[trigger] d@[j] <= 57 {
                        lemma_digits_value_prefix(d@, i + 1);
                    }
                }
                return 0;
            },
        }
        i = i + 1;
    }
    assert(d@.take(n as int) =~= d@);
    v
}

/// The UTF-8 text of `bytes`, empty when they are not valid UTF-8.
fn text_from(bytes: &[u8]) -> (r: String)
    ensures
        r@ == text_of(bytes@),
{
    match utf8_text(bytes) {
        Some(s) => s,
        None => String::new(),
    }
}

/// The bytes of an ASCII literal.
fn tag_name(s: &'static str) -> (r: &'static [u8])
    requires
        vstd::string::is_ascii(s),
    ensures
        r@ == ascii(s@),
{
    let r = s.as_bytes();
    proof {
        vstd::string::is_ascii_spec_bytes(s);
        assert(r@ =~= ascii(s@));
    }
    r
}

/// The entry that a `response` block describes.
fn entry_from_block(block: &[u8]) -> (r: DavEntry)
    ensures
        entry_of_block(r, block@),
{
    proof {
        reveal_strlit("href");
        reveal_strlit("collection");
        reveal_strlit("getcontentlength");
        reveal_strlit("getlastmodified");
        reveal_strlit("getcontenttype");
    }
    let href = match element_text_of(block, tag_name("href")) {
        Some(h) => h,
        None => Vec::new(),
    };
    let seg = href_segment_of(href.as_slice());
    let seg_text = text_from(seg.as_slice());
    let name = match url_decode(seg_text.as_str()) {
        Some(d) => d,
        None => seg_text,
    };
    let is_collection = find_start_tag(block, 0, tag_name("collection")).is_some();
    let size = match element_text_of(block, tag_name("getcontentlength")) {
        Some(t) => decimal_of(t.as_slice()),
        None => 0,
    };
    let last_modified = match element_text_of(block, tag_name("getlastmodified")) {
        Some(t) => text_from(t.as_slice()),
        None => String::new(),
    };
    let content_type = match element_text_of(block, tag_name("getcontenttype")) {
        Some(t) => text_from(t.as_slice()),
        None => String::new(),
    };
    DavEntry { name, is_collection, size, last_modified, content_type }
}

} // verus!

verus! {

/// The entries a multistatus body describes: one per `response` block after
/// the first, in order.
pub open spec fn propfind_entries_match(r: Seq<DavEntry>, body: Seq<u8>) -> bool {
    let blocks = response_blocks(body, 0);
    &&& r.len() == if blocks.len() > 0 { blocks.len() - 1 } else { 0 }
    &&& forall|i: int| 0 <= i < r.len() ==> entry_of_block(#[trigger] r[i], blocks[i + 1])
}

/// The `response` blocks of the body (see [`response_blocks`]).
fn response_blocks_of(b: &[u8]) -> (r: Vec<Vec<u8>>)
    ensures
        r@.map_values(|v: Vec<u8>| v@) == response_blocks(b@, 0),
{
    proof {
        reveal_strlit("response");
    }
    let name = tag_name("response");
    let mut out: Vec<Vec<u8>> = Vec::new();
    let mut from: usize = 0;
    let n = b.len();
    assert(out@.map_values(|v: Vec<u8>| v@) + response_blocks(b@, 0) =~= response_blocks(b@, 0));
    loop
        invariant
            n == b@.len(),
            name@ == ascii("response"@),
            out@.map_values(|v: Vec<u8>| v@) + response_blocks(b@, from as int) == response_blocks(b@, 0),
        decreases n - from,
    {
        let p = match find_start_tag(b, from, name) {
            Some(p) => p,
            None => {
                assert(response_blocks(b@, from as int) =~= Seq::<Seq<u8>>::empty());
                assert(out@.map_values(|v: Vec<u8>| v@) + Seq::<Seq<u8>>::empty() =~= out@.map_values(|v: Vec<u8>| v@));
                return out;
            },
        };
        let q = match find_end_tag(b, p + 1, name) {
            Some(q) => q,
            None => {
                assert(response_blocks(b@, from as int) =~= Seq::<Seq<u8>>::empty());
                assert(out@.map_values(|v: Vec<u8>| v@) + Seq::<Seq<u8>>::empty() =~= out@.map_values(|v: Vec<u8>| v@));
                return out;
            },
        };
        proof {
            lemma_first_pos(n as int, from as int, start_tag_pred(b@, name@));
            lemma_first_pos(n as int, p + 1, end_tag_pred(b@, name@));
        }
        let block = copy_range(b, p, q);
        let ghost before = out@.map_values(|v: Vec<u8>| v@);
        out.push(block);
        assert(out@.map_values(|v: Vec<u8>| v@) =~= before.push(b@.subrange(p as int, q as int)));
        assert(response_blocks(b@, from as int) == seq![b@.subrange(p as int, q as int)] + response_blocks(
            b@,
            q + 1,
        ));
        assert(out@.map_values(|v: Vec<u8>| v@) + response_blocks(b@, q + 1) =~= before
            + response_blocks(b@, from as int));
        from = q + 1;
    }
}

/// Read the entries of a `PROPFIND` multistatus body: one per `response`
/// element after the first (the listed collection itself), in order.
pub fn parse_propfind(body: &str) -> (r: Vec<DavEntry>)
    ensures
        propfind_entries_match(r@, encode_utf8(body@)),
{
    let b = body.as_bytes();
    let blocks = response_blocks_of(b);
    let ghost bv = blocks@.map_values(|v: Vec<u8>| v@);
    let mut out: Vec<DavEntry> = Vec::new();
    let n = blocks.len();
    if n == 0 {
        return out;
    }
    let mut i: usize = 1;
    while i < n
        invariant
            n == blocks@.len(),
            1 <= i <= n,
            bv == blocks@.map_values(|v: Vec<u8>| v@),
            out@.len() == i - 1,
            forall|j: int| 0 <= j < out@.len() ==> entry_of_block(#[trigger] out@[j], bv[j + 1]),
        decreases n - i,
    {
        let e = entry_from_block(blocks[i].as_slice());
        assert(bv[i as int] == blocks@[i as int]@);
        out.push(e);
        i = i + 1;
    }
    out
}

} // verus!
