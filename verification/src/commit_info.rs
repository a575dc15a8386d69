//! The commit object: an ordered header block and a free-form body, with the
//! exact serialized layout `headers + "\n\n" + body` and the content hash
//! computed over the framing `"commit " + decimal byte length + NUL + text`.
//!
//! Every edit returns a new value; nothing is mutated in place, so a base
//! object can be cloned freely across worker threads.

use crate::digits::spec_dec;
use crate::lines::{
    bytes_starts_with, join_lines, join_lines_exec, lemma_join_split, lemma_remove_concat,
    lemma_remove_keeps_all, lemma_remove_single, lemma_split_append_line, remove_matching,
    seq_starts_with, split_lines, split_lines_exec,
};
use sha1::{Digest, Sha1};
use vstd::prelude::*;
use vstd::string::StringSliceAdditionalSpecFns;

verus! {

/// Mathematical value of a commit object: its header block and body bytes.
#[verifier::ext_equal]
pub struct CommitView {
    pub headers: Seq<u8>,
    pub body: Seq<u8>,
}

/// Index of the first blank-line separator (two consecutive `10` bytes) in
/// `s`, or at least `s.len() - 1` if there is none.
pub open spec fn find_sep(s: Seq<u8>) -> int
    decreases s.len(),
{
    if s.len() < 2 {
        s.len() as int
    } else if s[0] == 10 && s[1] == 10 {
        0
    } else {
        1 + find_sep(s.drop_first())
    }
}

/// What `find_sep` returns: the least index holding the two-byte separator,
/// or a value within two of `s.len()` when there is none.
pub proof fn lemma_find_sep(s: Seq<u8>)
    ensures
        0 <= find_sep(s) <= s.len(),
        find_sep(s) + 2 <= s.len() ==> s[find_sep(s)] == 10 && s[find_sep(s) + 1] == 10,
        forall|j: int|
            0 <= j < find_sep(s) && j + 1 < s.len() ==> !(#[trigger] s[j] == 10 && s[j + 1] == 10),
    decreases s.len(),
{
    if s.len() < 2 {
    } else if s[0] == 10 && s[1] == 10 {
    } else {
        let t = s.drop_first();
        lemma_find_sep(t);
        let i = find_sep(s);
        assert forall|j: int| 0 <= j < i && j + 1 < s.len() implies !(#[trigger] s[j] == 10 && s[j
            + 1] == 10) by {
            if j > 0 {
                assert(t[j - 1] == s[j]);
                assert(j < s.len() ==> t[j] == s[j + 1]);
            }
        }
        if i + 2 <= s.len() {
            assert(s[i] == t[i - 1]);
            assert(s[i + 1] == t[i]);
        }
    }
}

/// Converse characterization of `find_sep` when a separator exists.
pub proof fn lemma_find_sep_is(s: Seq<u8>, k: int)
    requires
        0 <= k,
        k + 2 <= s.len(),
        forall|j: int| 0 <= j < k ==> !(#[trigger] s[j] == 10 && s[j + 1] == 10),
        s[k] == 10,
        s[k + 1] == 10,
    ensures
        find_sep(s) == k,
    decreases s.len(),
{
    if s[0] == 10 && s[1] == 10 {
        assert(k == 0);
    } else {
        let t = s.drop_first();
        assert(forall|j: int| 0 <= j < t.len() ==> t[j] == s[j + 1]);
        assert(k >= 1);
        lemma_find_sep_is(t, k - 1);
    }
}

/// A header block as `parse` produces it: it holds no blank-line separator
/// and does not end with a newline, so serializing and reparsing recovers it
/// exactly.
pub open spec fn wf_headers(h: Seq<u8>) -> bool {
    &&& forall|j: int| 0 <= j && j + 1 < h.len() ==> !(#[trigger] h[j] == 10 && h[j + 1] == 10)
    &&& h.len() > 0 ==> h[h.len() - 1] != 10
}

/// The serialized text: headers, one blank line, body.
pub open spec fn spec_serialize(c: CommitView) -> Seq<u8> {
    c.headers + seq![10u8, 10u8] + c.body
}

/// Splitting raw text on the first blank line; `None` when no blank line
/// exists. The body keeps any further blank lines intact.
pub open spec fn spec_parse(s: Seq<u8>) -> Option<CommitView> {
    let i = find_sep(s);
    if i + 2 <= s.len() {
        Some(CommitView { headers: s.subrange(0, i), body: s.subrange(i + 2, s.len() as int) })
    } else {
        None
    }
}

/// A new header line `name SP value` appended to the block.
pub open spec fn spec_add_header(h: Seq<u8>, name: Seq<u8>, value: Seq<u8>) -> Seq<u8> {
    h + seq![10u8] + name + seq![32u8] + value
}

/// The block without every line that starts with `name` (a literal prefix
/// match on the raw line, not a structured name match).
pub open spec fn spec_remove_header(h: Seq<u8>, name: Seq<u8>) -> Seq<u8> {
    join_lines(remove_matching(split_lines(h), name))
}

/// Whether some line of the block starts with `name`.
pub open spec fn spec_has_header(h: Seq<u8>, name: Seq<u8>) -> bool {
    exists|k: int|
        0 <= k < split_lines(h).len() && seq_starts_with(#[trigger] split_lines(h)[k], name)
}

/// The 40-character rendering of the SHA-1 digest of a byte sequence, as the
/// sha1 crate computes it. Left uninterpreted: it is a fixed function of the
/// input bytes, stated only where the trusted wrapper applies it.
pub uninterp spec fn sha1_hex_of(bytes: Seq<u8>) -> Seq<char>;

/// The fixed object-type tag `"commit "` that prefixes the hashed framing.
pub open spec fn frame_tag() -> Seq<u8> {
    seq![99u8, 111u8, 109u8, 109u8, 105u8, 116u8, 32u8]
}

/// The framing whose digest addresses the object: tag, decimal byte length
/// of the serialized text, a NUL byte, then the text itself.
pub open spec fn spec_frame(text: Seq<u8>) -> Seq<u8> {
    frame_tag() + spec_dec(text.len()) + seq![0u8] + text
}

/// The commit's content hash: the digest rendering of its framed text.
pub open spec fn spec_hash(c: CommitView) -> Seq<char> {
    sha1_hex_of(spec_frame(spec_serialize(c)))
}

/// A lowercase hexadecimal digit character.
pub open spec fn is_hex_lower_char(c: char) -> bool {
    (48 <= c as u32 && c as u32 <= 57) || (97 <= c as u32 && c as u32 <= 102)
}

/// Relies on the sha1 crate's `Sha1` (RustCrypto): SHA-1 is a pure function
/// of the input bytes with a 20-byte digest, and generic-array's `LowerHex`
/// renders each digest byte as exactly two lowercase hexadecimal digits.
#[verifier::external_body]
fn sha1_hex(bytes: &[u8]) -> (r: String)
    ensures
        r@ == sha1_hex_of(bytes@),
        r@.len() == 40,
        forall|i: int| 0 <= i < r@.len() ==> is_hex_lower_char(#[trigger] r@[i]),
{
    let mut hasher = Sha1::new();
    hasher.update(bytes);
    format!("{:x}", hasher.finalize())
}

/// Appends a copy of `src` to `dst`.
fn extend_bytes(dst: &mut Vec<u8>, src: &[u8])
    ensures
        final(dst)@ == old(dst)@ + src@,
{
    let mut tmp = vstd::slice::slice_to_vec(src);
    dst.append(&mut tmp);
}

/// A commit object: an ordered block of header lines and a body. Immutable;
/// every edit returns a new value.
#[derive(Clone)]
pub struct CommitInfo {
    headers: Vec<u8>,
    body: Vec<u8>,
}

impl View for CommitInfo {
    type V = CommitView;

    closed spec fn view(&self) -> CommitView {
        CommitView { headers: self.headers@, body: self.body@ }
    }
}

impl CommitInfo {
    /// Splits raw commit text on the first blank line into headers and body;
    /// `None` when the text has no blank-line separator.
    pub fn from_str(s: &str) -> (r: Option<CommitInfo>)
        ensures
            r is Some <==> spec_parse(s.spec_bytes()) is Some,
            r matches Some(ci) ==> spec_parse(s.spec_bytes()) == Some(ci@),
    {
        let bytes = s.as_bytes();
        let n = bytes.len();
        if n < 2 {
            return None;
        }
        let mut i: usize = 0;
        while i < n - 1
            invariant
                bytes@ == s.spec_bytes(),
                n == bytes@.len(),
                2 <= n,
                i <= n - 1,
                forall|j: int| 0 <= j < i ==> !(#[trigger] bytes@[j] == 10 && bytes@[j + 1] == 10),
            decreases n - i,
        {
            if bytes[i] == 10 && bytes[i + 1] == 10 {
                proof {
                    lemma_find_sep_is(bytes@, i as int);
                }
                let headers = vstd::slice::slice_to_vec(
                    vstd::slice::slice_subrange(bytes, 0, i),
                );
                let body = vstd::slice::slice_to_vec(
                    vstd::slice::slice_subrange(bytes, i + 2, n),
                );
                let ci = CommitInfo { headers, body };
                proof {
                    let sp = spec_parse(s.spec_bytes());
                    assert(sp is Some);
                    assert(sp->Some_0 =~= ci@);
                }
                return Some(ci);
            }
            i += 1;
        }
        proof {
            lemma_find_sep(bytes@);
            if find_sep(bytes@) + 2 <= bytes@.len() {
                let k = find_sep(bytes@);
                assert(!(bytes@[k] == 10 && bytes@[k + 1] == 10));
            }
        }
        None
    }

    /// Appends the line `name SP value` to the header block; the receiver is
    /// left untouched.
    pub fn add_header(&self, name: &str, value: &str) -> (r: CommitInfo)
        ensures
            r@.headers == spec_add_header(self@.headers, name.spec_bytes(), value.spec_bytes()),
            r@.body == self@.body,
    {
        self.add_header_bytes(name.as_bytes(), value.as_bytes())
    }

    /// `add_header` on raw bytes.
    pub fn add_header_bytes(&self, name: &[u8], value: &[u8]) -> (r: CommitInfo)
        ensures
            r@.headers == spec_add_header(self@.headers, name@, value@),
            r@.body == self@.body,
    {
        let mut h = vstd::slice::slice_to_vec(self.headers.as_slice());
        h.push(10);
        extend_bytes(&mut h, name);
        h.push(32);
        extend_bytes(&mut h, value);
        let body = vstd::slice::slice_to_vec(self.body.as_slice());
        proof {
            assert(h@ =~= spec_add_header(self@.headers, name@, value@));
        }
        CommitInfo { headers: h, body }
    }

    /// Drops every header line that starts with `name` — a literal prefix
    /// match on the raw line, so a longer header name that begins with
    /// `name` is stripped too; the receiver is left untouched.
    pub fn remove_header(&self, name: &str) -> (r: CommitInfo)
        ensures
            r@.headers == spec_remove_header(self@.headers, name.spec_bytes()),
            r@.body == self@.body,
    {
        let nb = name.as_bytes();
        let lines = split_lines_exec(self.headers.as_slice());
        let ghost lv = lines.deep_view();
        let mut kept: Vec<Vec<u8>> = Vec::new();
        proof {
            assert(lv.take(0int) =~= Seq::<Seq<u8>>::empty());
            assert(kept.deep_view() =~= remove_matching(lv.take(0int), nb@));
        }
        let mut k: usize = 0;
        while k < lines.len()
            invariant
                k <= lines@.len(),
                lv == lines.deep_view(),
                lv == split_lines(self@.headers),
                lines@.len() == lv.len(),
                nb@ == name.spec_bytes(),
                kept.deep_view() == remove_matching(lv.take(k as int), nb@),
            decreases lines@.len() - k,
        {
            proof {
                lemma_remove_concat(lv.take(k as int), seq![lv[k as int]], nb@);
                assert(lv.take(k + 1) =~~= lv.take(k as int) + seq![lv[k as int]]);
                lemma_remove_single(lv[k as int], nb@);
                assert(lv[k as int] =~= lines@[k as int]@);
            }
            if !bytes_starts_with(lines[k].as_slice(), nb) {
                kept.push(vstd::slice::slice_to_vec(lines[k].as_slice()));
                proof {
                    assert(kept.deep_view() =~~= remove_matching(lv.take(k + 1), nb@));
                }
            } else {
                proof {
                    assert(kept.deep_view() =~~= remove_matching(lv.take(k + 1), nb@));
                }
            }
            k += 1;
        }
        proof {
            assert(lv.take(lines@.len() as int) =~~= lv);
        }
        let new_headers = join_lines_exec(&kept);
        let body = vstd::slice::slice_to_vec(self.body.as_slice());
        CommitInfo { headers: new_headers, body }
    }

    /// Whether some header line starts with `name` (the same literal prefix
    /// match as `remove_header`).
    pub fn has_header(&self, name: &str) -> (r: bool)
        ensures
            r == spec_has_header(self@.headers, name.spec_bytes()),
    {
        let nb = name.as_bytes();
        let lines = split_lines_exec(self.headers.as_slice());
        let ghost lv = lines.deep_view();
        let mut k: usize = 0;
        while k < lines.len()
            invariant
                k <= lines@.len(),
                lv == lines.deep_view(),
                lv == split_lines(self@.headers),
                lines@.len() == lv.len(),
                nb@ == name.spec_bytes(),
                forall|j: int| 0 <= j < k ==> !seq_starts_with(#[trigger] lv[j], nb@),
            decreases lines@.len() - k,
        {
            proof {
                assert(lv[k as int] =~= lines@[k as int]@);
            }
            if bytes_starts_with(lines[k].as_slice(), nb) {
                proof {
                    assert(seq_starts_with(lv[k as int], nb@));
                }
                return true;
            }
            k += 1;
        }
        false
    }

    /// The exact serialized byte layout that gets hashed: headers, one blank
    /// line, body.
    pub fn serialize_bytes(&self) -> (r: Vec<u8>)
        ensures
            r@ == spec_serialize(self@),
    {
        let mut out = vstd::slice::slice_to_vec(self.headers.as_slice());
        out.push(10);
        out.push(10);
        extend_bytes(&mut out, self.body.as_slice());
        proof {
            assert(out@ =~= spec_serialize(self@));
        }
        out
    }

    /// The commit's content hash: 40 lowercase hexadecimal characters over
    /// the framed serialized text. Deterministic and side-effect-free.
    pub fn hash(&self) -> (r: String)
        ensures
            r@ == spec_hash(self@),
            r@.len() == 40,
            forall|i: int| 0 <= i < r@.len() ==> is_hex_lower_char(#[trigger] r@[i]),
    {
        let text = self.serialize_bytes();
        let framed = Self::add_length_prefix(&text);
        sha1_hex(framed.as_slice())
    }

    /// Builds the framing `"commit " + decimal byte length + NUL + text`.
    fn add_length_prefix(text: &Vec<u8>) -> (r: Vec<u8>)
        ensures
            r@ == spec_frame(text@),
    {
        let mut framed: Vec<u8> = Vec::new();
        framed.push(99);
        framed.push(111);
        framed.push(109);
        framed.push(109);
        framed.push(105);
        framed.push(116);
        framed.push(32);
        proof {
            assert(framed@ =~= frame_tag());
        }
        let mut len_digits = crate::digits::dec_bytes(text.len());
        framed.append(&mut len_digits);
        framed.push(0);
        extend_bytes(&mut framed, text.as_slice());
        proof {
            assert(framed@ =~= spec_frame(text@));
        }
        framed
    }
}

/// Parsing recovers exactly what serialization wrote: for any commit value
/// whose header block is well formed — as every parsed one is — splitting the
/// serialized text on the first blank line gives the same value back.
pub proof fn lemma_parse_serialize_round_trip(c: CommitView)
    requires
        wf_headers(c.headers),
    ensures
        spec_parse(spec_serialize(c)) == Some(c),
{
    let s = spec_serialize(c);
    let n = c.headers.len() as int;
    assert(s[n] == 10 && s[n + 1] == 10);
    assert forall|j: int| 0 <= j < n implies !(#[trigger] s[j] == 10 && s[j + 1] == 10) by {
        assert(s[j] == c.headers[j]);
        if j + 1 < n {
            assert(s[j + 1] == c.headers[j + 1]);
        }
    }
    lemma_find_sep_is(s, n);
    assert(s.subrange(0, n) =~= c.headers);
    assert(s.subrange(n + 2, s.len() as int) =~= c.body);
    assert(spec_parse(s) == Some(CommitView { headers: c.headers, body: c.body }));
    assert(CommitView { headers: c.headers, body: c.body } =~= c);
}

/// Every successfully parsed commit has a well-formed header block, so the
/// round trip above applies to it.
pub proof fn lemma_parse_gives_wf(s: Seq<u8>, c: CommitView)
    requires
        spec_parse(s) == Some(c),
    ensures
        wf_headers(c.headers),
{
    lemma_find_sep(s);
    let i = find_sep(s);
    assert(c.headers == s.subrange(0, i));
    assert forall|j: int| 0 <= j && j + 1 < c.headers.len() implies !(#[trigger] c.headers[j] == 10
        && c.headers[j + 1] == 10) by {
        assert(c.headers[j] == s[j]);
        assert(c.headers[j + 1] == s[j + 1]);
    }
    if c.headers.len() > 0 {
        if c.headers[i - 1] == 10 {
            assert(s[i - 1] == 10 && s[i] == 10);
        }
    }
}

/// Adding a header line and then removing it by name restores the original
/// header block, provided the name did not already prefix-match an existing
/// line and neither name nor value contains a newline.
pub proof fn lemma_add_then_remove(h: Seq<u8>, name: Seq<u8>, value: Seq<u8>)
    requires
        !spec_has_header(h, name),
        forall|j: int| 0 <= j < name.len() ==> name[j] != 10,
        forall|j: int| 0 <= j < value.len() ==> value[j] != 10,
    ensures
        spec_remove_header(spec_add_header(h, name, value), name) == h,
{
    let line = name + seq![32u8] + value;
    assert(forall|j: int| 0 <= j < line.len() ==> line[j] != 10);
    assert(spec_add_header(h, name, value) =~= h + seq![10u8] + line);
    lemma_split_append_line(h, line);
    lemma_remove_concat(split_lines(h), seq![line], name);
    assert(seq_starts_with(line, name)) by {
        assert(line.subrange(0, name.len() as int) =~= name);
    }
    lemma_remove_single(line, name);
    lemma_remove_keeps_all(split_lines(h), name);
    assert(remove_matching(split_lines(h) + seq![line], name) =~~= split_lines(h));
    lemma_join_split(h);
}

/// Appending a header line keeps the header block well formed, provided the
/// name is nonempty and neither name nor value contains a newline.
pub proof fn lemma_add_header_preserves_wf(h: Seq<u8>, name: Seq<u8>, value: Seq<u8>)
    requires
        wf_headers(h),
        name.len() > 0,
        forall|j: int| 0 <= j < name.len() ==> name[j] != 10,
        forall|j: int| 0 <= j < value.len() ==> value[j] != 10,
    ensures
        wf_headers(spec_add_header(h, name, value)),
{
    let line = name + seq![32u8] + value;
    let a = spec_add_header(h, name, value);
    assert(a =~= h + seq![10u8] + line);
    let n = h.len() as int;
    assert forall|j: int| 0 <= j && j + 1 < a.len() implies !(#[trigger] a[j] == 10 && a[j + 1]
        == 10) by {
        if j + 1 < n {
            assert(a[j] == h[j] && a[j + 1] == h[j + 1]);
        } else if j + 1 == n {
            assert(a[j] == h[j]);
            assert(h[n - 1] != 10);
        } else if j == n {
            assert(a[j + 1] == line[0] && line[0] == name[0]);
        } else {
            assert(a[j] == line[j - n - 1]);
        }
    }
    assert(a[a.len() - 1] == line[line.len() - 1]);
}

/// The hash depends on nothing but the serialized text: two commit values
/// that serialize identically have identical hashes.
pub proof fn lemma_hash_deterministic(a: CommitView, b: CommitView)
    requires
        spec_serialize(a) == spec_serialize(b),
    ensures
        spec_hash(a) == spec_hash(b),
{
}

} // verus!
