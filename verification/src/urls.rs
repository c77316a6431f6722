//! Building WebDAV paths and URLs: percent-encoding of path segments,
//! trimming and splitting of sub-paths.

use vstd::prelude::*;
use vstd::utf8::encode_utf8;

use crate::seqs::first_index;

verus! {

/// A byte that URL encoding leaves as it is: an ASCII letter or digit, or one
/// of `-`, `.`, `_`, `~`.
pub open spec fn is_unreserved(b: u8) -> bool {
    (48 <= b <= 57) || (65 <= b <= 90) || (97 <= b <= 122) || b == 45 || b == 46 || b == 95 || b == 126
}

/// The upper-case hexadecimal digit for `d < 16`.
pub open spec fn hex_upper(d: int) -> char {
    if d < 10 {
        ((48 + d) as u32) as char
    } else {
        ((55 + d) as u32) as char
    }
}

/// Percent-encoding of a byte sequence: unreserved bytes stay, every other
/// byte becomes `%XX` with upper-case hex digits.
pub open spec fn percent_encoded(bytes: Seq<u8>) -> Seq<char>
    decreases bytes.len(),
{
    if bytes.len() == 0 {
        Seq::empty()
    } else {
        let b = bytes[0];
        let head = if is_unreserved(b) {
            seq![(b as u32) as char]
        } else {
            seq!['%', hex_upper((b / 16) as int), hex_upper((b % 16) as int)]
        };
        head + percent_encoded(bytes.drop_first())
    }
}

/// URL encoding of a string: its UTF-8 bytes, percent-encoded.
pub open spec fn url_encoded(s: Seq<char>) -> Seq<char> {
    percent_encoded(encode_utf8(s))
}

/// URL-encode `s`.
///
/// Calls `urlencoding::encode`, which percent-encodes every UTF-8 byte of `s`
/// except ASCII letters, digits and `-`, `.`, `_`, `~`, writing `%` and two
/// upper-case hex digits; that is what the contract states.
#[verifier::external_body]
pub(crate) fn url_encode(s: &str) -> (r: String)
    ensures
        r@ == url_encoded(s@),
{
    urlencoding::encode(s).into_owned()
}

/// A percent-encoded text never holds a `/`.
pub proof fn law_encoded_has_no_slash(bytes: Seq<u8>)
    ensures
        !percent_encoded(bytes).contains('/'),
    decreases bytes.len(),
{
    if bytes.len() > 0 {
        law_encoded_has_no_slash(bytes.drop_first());
        let b = bytes[0];
        let rest = percent_encoded(bytes.drop_first());
        let head = if is_unreserved(b) {
            seq![(b as u32) as char]
        } else {
            seq!['%', hex_upper((b / 16) as int), hex_upper((b % 16) as int)]
        };
        assert(percent_encoded(bytes) == head + rest);
        assert forall|i: int| 0 <= i < head.len() implies head[i] != '/' by {
            if is_unreserved(b) {
                assert(head[i] == (b as u32) as char);
                assert((b as u32) != 47u32);
            } else if i > 0 {
                let d = if i == 1 { (b / 16) as int } else { (b % 16) as int };
                assert(head[i] == hex_upper(d));
                assert(0 <= d < 16);
            }
        }
        if (head + rest).contains('/') {
            let k = choose|k: int| 0 <= k < (head + rest).len() && (head + rest)[k] == '/';
            if k < head.len() {
                assert(head[k] == '/');
            } else {
                assert(rest[k - head.len()] == '/');
            }
        }
    }
}

// ── Trimming and splitting ──────────────────────────────────

/// `s` without its leading `/` characters.
pub open spec fn trim_start_slashes(s: Seq<char>) -> Seq<char>
    decreases s.len(),
{
    if s.len() > 0 && s[0] == '/' {
        trim_start_slashes(s.drop_first())
    } else {
        s
    }
}

/// `s` without its trailing `/` characters.
pub open spec fn trim_end_slashes(s: Seq<char>) -> Seq<char>
    decreases s.len(),
{
    if s.len() > 0 && s.last() == '/' {
        trim_end_slashes(s.drop_last())
    } else {
        s
    }
}

/// `s` without leading and trailing `/` characters (`str::trim_matches('/')`).
pub open spec fn trim_slashes(s: Seq<char>) -> Seq<char> {
    trim_end_slashes(trim_start_slashes(s))
}

/// The pieces of `s` between `/` separators (`str::split('/')`): one more
/// piece than there are separators.
pub open spec fn split_slash(s: Seq<char>) -> Seq<Seq<char>>
    decreases s.len(),
{
    let i = first_index(s, |c: char| c == '/');
    if i < 0 || i >= s.len() {
        seq![s]
    } else {
        seq![s.take(i)] + split_slash(s.skip(i + 1))
    }
}

/// The pieces joined with `/` separators (`[..].join("/")`).
pub open spec fn join_slash(parts: Seq<Seq<char>>) -> Seq<char>
    decreases parts.len(),
{
    if parts.len() == 0 {
        Seq::empty()
    } else if parts.len() == 1 {
        parts[0]
    } else {
        parts[0] + seq!['/'] + join_slash(parts.drop_first())
    }
}

/// `s` with every `/`-separated segment URL-encoded and the `/` kept.
pub open spec fn encoded_segments(s: Seq<char>) -> Seq<char> {
    join_slash(split_slash(s).map_values(|p: Seq<char>| url_encoded(p)))
}

/// `s` without leading `/` characters.
pub fn trim_start_slash(s: &str) -> (r: &str)
    ensures
        r@ == trim_start_slashes(s@),
    decreases s@.len(),
{
    let n = s.unicode_len();
    if n > 0 && s.get_char(0) == '/' {
        let rest = s.substring_char(1, n);
        assert(rest@ =~= s@.drop_first());
        trim_start_slash(rest)
    } else {
        s
    }
}

/// `s` without trailing `/` characters (`str::trim_end_matches('/')`).
pub fn trim_end_slash(s: &str) -> (r: &str)
    ensures
        r@ == trim_end_slashes(s@),
    decreases s@.len(),
{
    let n = s.unicode_len();
    if n > 0 && s.get_char(n - 1) == '/' {
        let rest = s.substring_char(0, n - 1);
        assert(rest@ =~= s@.drop_last());
        trim_end_slash(rest)
    } else {
        s
    }
}

/// `s` without leading and trailing `/` characters.
pub fn trim_slash(s: &str) -> (r: &str)
    ensures
        r@ == trim_slashes(s@),
{
    trim_end_slash(trim_start_slash(s))
}

/// `s` with every `/`-separated segment URL-encoded.
pub fn encode_segments(s: &str) -> (r: String)
    ensures
        r@ == encoded_segments(s@),
    decreases s@.len(),
{
    let ghost p = |c: char| c == '/';
    let n = s.unicode_len();
    let mut i: usize = 0;
    while i < n
        invariant
            n == s@.len(),
            i <= n,
            p == (|c: char| c == '/'),
            forall|j: int| 0 <= j < i ==> !p(#[trigger] s@[j]),
        ensures
            i <= n,
            forall|j: int| 0 <= j < i ==> !p(#[trigger] s@[j]),
            i < n ==> p(s@[i as int]),
        decreases n - i,
    {
        if s.get_char(i) == '/' {
            break;
        }
        i = i + 1;
    }
    proof {
        crate::seqs::lemma_first_index_skip(s@, p, i as int);
    }
    if i == n {
        assert(split_slash(s@) == seq![s@]);
        assert(split_slash(s@).map_values(|q: Seq<char>| url_encoded(q)) =~= seq![url_encoded(s@)]);
        return url_encode(s);
    }
    let head = s.substring_char(0, i);
    let tail = s.substring_char(i + 1, n);
    assert(head@ =~= s@.take(i as int));
    assert(tail@ =~= s@.skip(i + 1));
    let mut r = url_encode(head);
    r.append("/");
    proof {
        reveal_strlit("/");
    }
    let rest = encode_segments(tail);
    r.append(rest.as_str());
    proof {
        let parts = split_slash(s@);
        let tparts = split_slash(tail@);
        assert(parts == seq![s@.take(i as int)] + tparts);
        let f = |q: Seq<char>| url_encoded(q);
        assert(parts.map_values(f) =~= seq![url_encoded(head@)] + tparts.map_values(f));
        lemma_split_nonempty(tail@);
        assert((seq![url_encoded(head@)] + tparts.map_values(f)).drop_first() =~= tparts.map_values(f));
    }
    r
}

/// Splitting always yields at least one piece.
pub proof fn lemma_split_nonempty(s: Seq<char>)
    ensures
        split_slash(s).len() >= 1,
    decreases s.len(),
{
    let i = first_index(s, |c: char| c == '/');
    if !(i < 0 || i >= s.len()) {
        lemma_split_nonempty(s.skip(i + 1));
    }
}

} // verus!

verus! {

/// Split `s` at every `/` (`str::split('/')`).
pub fn split_slash_exec(s: &str) -> (r: Vec<String>)
    ensures
        r@.map_values(|x: String| x@) == split_slash(s@),
    decreases s@.len(),
{
    let ghost p = |c: char| c == '/';
    let n = s.unicode_len();
    let mut i: usize = 0;
    while i < n
        invariant
            n == s@.len(),
            i <= n,
            p == (|c: char| c == '/'),
            forall|j: int| 0 <= j < i ==> !p(#[trigger] s@[j]),
        ensures
            i <= n,
            forall|j: int| 0 <= j < i ==> !p(#[trigger] s@[j]),
            i < n ==> p(s@[i as int]),
        decreases n - i,
    {
        if s.get_char(i) == '/' {
            break;
        }
        i = i + 1;
    }
    proof {
        crate::seqs::lemma_first_index_skip(s@, p, i as int);
    }
    if i == n {
        let mut r: Vec<String> = Vec::new();
        r.push(s.to_string());
        assert(r@.map_values(|x: String| x@) =~= seq![s@]);
        return r;
    }
    let head = s.substring_char(0, i);
    let tail = s.substring_char(i + 1, n);
    assert(head@ =~= s@.take(i as int));
    assert(tail@ =~= s@.skip(i + 1));
    let rest = split_slash_exec(tail);
    let mut r: Vec<String> = Vec::new();
    r.push(head.to_string());
    let mut k: usize = 0;
    while k < rest.len()
        invariant
            k <= rest@.len(),
            r@.len() == k + 1,
            r@[0]@ == head@,
            forall|j: int| 1 <= j <= k ==> (#[trigger] r@[j])@ == rest@[j - 1]@,
        decreases rest@.len() - k,
    {
        r.push(rest[k].clone());
        k = k + 1;
    }
    assert(r@.map_values(|x: String| x@) =~= seq![head@] + rest@.map_values(|x: String| x@));
    r
}

} // verus!
