//! The search itself: one attempt builds a candidate commit and tests its
//! hash against the wanted prefix; a worker runs attempts in order until it
//! finds a match, is told to stop, or exhausts its bound. A found candidate
//! is reported on the shared result channel; the coordinator side re-checks
//! the winner's hash, so what `race_for_prefix` returns is guaranteed to
//! match the prefix without trusting what travelled through the channel.

use crate::commit_info::{
    is_hex_lower_char, lemma_add_header_preserves_wf, lemma_parse_serialize_round_trip,
    spec_add_header, spec_has_header, spec_hash, spec_parse, spec_remove_header, spec_serialize,
    wf_headers, CommitInfo, CommitView,
};
use crate::digits::{lemma_dec_bytes_range, lemma_hex_bytes_range, spec_dec, spec_hex};
use crate::lines::{bytes_eq, seq_starts_with};
use crate::search_manager::{ImmutableSearchManager, Worker};
use crate::search_space::{generate, spec_generate};
use vstd::prelude::*;
use vstd::string::{StrSliceExecFns, StringSliceAdditionalSpecFns};
use vstd::utf8::is_ascii_chars;

verus! {

/// The fixed name of the synthetic header that perturbs the hash, as bytes:
/// `"vanity"`.
pub open spec fn vanity_name() -> Seq<u8> {
    seq![118u8, 97u8, 110u8, 105u8, 116u8, 121u8]
}

/// The vanity header's name as a string: `"vanity"`. Repeated runs must
/// strip this header from a commit read back from the store before a fresh
/// search, so that headers do not stack.
pub fn vanity_header() -> (r: &'static str)
    ensures
        r@ == "vanity"@,
        r.spec_bytes() == vanity_name(),
{
    let s = "vanity";
    proof {
        reveal_strlit("vanity");
        assert(is_ascii_chars(s@));
        vstd::utf8::is_ascii_chars_encode_utf8(s@);
        assert(s.spec_bytes() =~= vanity_name());
    }
    s
}

/// The vanity header's name as a byte vector, for building candidates.
pub fn vanity_name_bytes() -> (r: Vec<u8>)
    ensures
        r@ == vanity_name(),
{
    let mut v: Vec<u8> = Vec::new();
    v.push(118);
    v.push(97);
    v.push(110);
    v.push(105);
    v.push(116);
    v.push(121);
    proof {
        assert(v@ =~= vanity_name());
    }
    v
}

/// The candidate commit probed by `partition` at `attempt`: the base commit
/// with one extra header line `vanity <partition>-<attempt in hex>`.
pub open spec fn candidate_view(base: CommitView, partition: nat, attempt: nat) -> CommitView {
    CommitView {
        headers: spec_add_header(base.headers, vanity_name(), spec_generate(partition, attempt)),
        body: base.body,
    }
}

/// Whether that candidate's hash starts with the wanted prefix.
pub open spec fn attempt_matches(
    base: CommitView,
    prefix: Seq<char>,
    partition: nat,
    attempt: nat,
) -> bool {
    seq_starts_with(spec_hash(candidate_view(base, partition, attempt)), prefix)
}

/// Whether `p` is a character-for-character prefix of `s`.
pub fn str_starts_with(s: &str, p: &str) -> (r: bool)
    ensures
        r == seq_starts_with(s@, p@),
{
    let n = p.unicode_len();
    let m = s.unicode_len();
    if n > m {
        return false;
    }
    let mut i: usize = 0;
    while i < n
        invariant
            i <= n,
            n == p@.len(),
            m == s@.len(),
            n <= m,
            forall|j: int| 0 <= j < i ==> s@[j] == p@[j],
        decreases n - i,
    {
        let cs = s.get_char(i);
        let cp = p.get_char(i);
        if cs != cp {
            assert(s@.subrange(0, p@.len() as int)[i as int] == s@[i as int]);
            return false;
        }
        i += 1;
    }
    assert(s@.subrange(0, p@.len() as int) =~= p@);
    true
}

/// Everything one worker needs: its own clone of the base commit, the wanted
/// prefix, its partition index, and its iteration ceiling.
pub struct SearchOptions {
    pub commit_info: CommitInfo,
    pub wanted_prefix: String,
    pub vanity_prefix: usize,
    pub attempt_limit: u64,
}

/// How a worker's run ended. `Found` carries the winning candidate;
/// `Exhausted` means every attempt below the bound was tried and none
/// matched; `Cancelled` means the stop signal arrived first.
pub enum SearchOutcome {
    Found(CommitInfo),
    Cancelled,
    Exhausted,
}

/// One attempt: builds the candidate for `(vanity_prefix, attempt)`, hashes
/// it, and returns it exactly when its hash starts with the wanted prefix.
/// A prefix longer than the 40-character hash, or one holding a character
/// that is not a lowercase hexadecimal digit, can never match.
pub fn search_attempt(
    base: &CommitInfo,
    wanted_prefix: &str,
    vanity_prefix: usize,
    attempt: u64,
) -> (r: Option<CommitInfo>)
    ensures
        (r is Some) == attempt_matches(
            base@,
            wanted_prefix@,
            vanity_prefix as nat,
            attempt as nat,
        ),
        r matches Some(c) ==> c@ == candidate_view(base@, vanity_prefix as nat, attempt as nat),
        wanted_prefix@.len() > 40 ==> r is None,
        (exists|j: int|
            0 <= j < wanted_prefix@.len() && !is_hex_lower_char(#[trigger] wanted_prefix@[j]))
            ==> r is None,
{
    let name = vanity_name_bytes();
    let value = generate(vanity_prefix, attempt);
    let candidate = base.add_header_bytes(name.as_slice(), value.as_slice());
    proof {
        assert(candidate@ =~= candidate_view(base@, vanity_prefix as nat, attempt as nat));
    }
    let h = candidate.hash();
    if str_starts_with(h.as_str(), wanted_prefix) {
        proof {
            assert forall|j: int| 0 <= j < wanted_prefix@.len() implies is_hex_lower_char(
                #[trigger] wanted_prefix@[j],
            ) by {
                assert(h@.subrange(0, wanted_prefix@.len() as int)[j] == h@[j]);
                assert(wanted_prefix@[j] == h@[j]);
            }
        }
        Some(candidate)
    } else {
        None
    }
}

/// One worker's whole run: attempts `0, 1, 2, ...` in order up to the bound,
/// polling for cancellation between attempts. `Found` carries the candidate
/// of the first matching attempt; `Exhausted` certifies that no attempt
/// below the bound matches. A worker always terminates: on a match, on the
/// stop signal, or at the bound.
pub fn run_search(options: &SearchOptions, worker: &Worker<CommitInfo>) -> (r: SearchOutcome)
    ensures
        r matches SearchOutcome::Found(c) ==> seq_starts_with(
            spec_hash(c@),
            options.wanted_prefix@,
        ),
        r matches SearchOutcome::Found(c) ==> exists|n: u64|
            n < options.attempt_limit && #[trigger] attempt_matches(
                options.commit_info@,
                options.wanted_prefix@,
                options.vanity_prefix as nat,
                n as nat,
            ) && c@ == candidate_view(
                options.commit_info@,
                options.vanity_prefix as nat,
                n as nat,
            ) && forall|m: u64|
                m < n ==> !#[trigger] attempt_matches(
                    options.commit_info@,
                    options.wanted_prefix@,
                    options.vanity_prefix as nat,
                    m as nat,
                ),
        r is Exhausted ==> forall|n: u64|
            n < options.attempt_limit ==> !#[trigger] attempt_matches(
                options.commit_info@,
                options.wanted_prefix@,
                options.vanity_prefix as nat,
                n as nat,
            ),
        options.wanted_prefix@.len() > 40 ==> !(r is Found),
        (exists|j: int|
            0 <= j < options.wanted_prefix@.len() && !is_hex_lower_char(
                #[trigger] options.wanted_prefix@[j],
            )) ==> !(r is Found),
        options.attempt_limit == 0 ==> r is Exhausted,
        r is Cancelled ==> options.attempt_limit > 0 && !attempt_matches(
            options.commit_info@,
            options.wanted_prefix@,
            options.vanity_prefix as nat,
            0,
        ),
{
    let mut n: u64 = 0;
    while n < options.attempt_limit
        invariant
            n <= options.attempt_limit,
            forall|m: u64|
                m < n ==> !#[trigger] attempt_matches(
                    options.commit_info@,
                    options.wanted_prefix@,
                    options.vanity_prefix as nat,
                    m as nat,
                ),
        decreases options.attempt_limit - n,
    {
        let found = search_attempt(
            &options.commit_info,
            options.wanted_prefix.as_str(),
            options.vanity_prefix,
            n,
        );
        match found {
            Some(c) => {
                return SearchOutcome::Found(c);
            },
            None => {},
        }
        if worker.should_stop() {
            return SearchOutcome::Cancelled;
        }
        n += 1;
    }
    SearchOutcome::Exhausted
}

/// What one spawned worker does: run the search and report a found candidate
/// on the shared result channel; on cancellation or exhaustion it reports
/// nothing — its exit alone is the signal.
pub fn find_vanity_commit_info_worker(options: SearchOptions, worker: Worker<CommitInfo>) {
    let outcome = run_search(&options, &worker);
    match outcome {
        SearchOutcome::Found(c) => worker.found(c),
        SearchOutcome::Cancelled => (),
        SearchOutcome::Exhausted => (),
    }
}

/// The byte layout of a candidate is exact: a candidate built from a commit
/// with a well-formed header block — as every parsed commit has — serializes
/// to text that parses back to that same candidate. What a worker hands to
/// the store is therefore reproduced byte for byte when it is read again.
pub proof fn lemma_candidate_round_trip(base: CommitView, partition: nat, attempt: nat)
    requires
        wf_headers(base.headers),
    ensures
        spec_parse(spec_serialize(candidate_view(base, partition, attempt))) == Some(
            candidate_view(base, partition, attempt),
        ),
{
    let value = spec_generate(partition, attempt);
    lemma_dec_bytes_range(partition);
    lemma_hex_bytes_range(attempt);
    assert(forall|j: int| 0 <= j < value.len() ==> value[j] != 10) by {
        assert(forall|j: int|
            0 <= j < spec_dec(partition).len() ==> #[trigger] value[j] == spec_dec(partition)[j]);
        assert(value[spec_dec(partition).len() as int] == 45);
        assert(forall|j: int|
            spec_dec(partition).len() + 1 <= j < value.len() ==> #[trigger] value[j] == spec_hex(
                attempt,
            )[j - spec_dec(partition).len() - 1]);
    }
    assert(forall|j: int| 0 <= j < vanity_name().len() ==> vanity_name()[j] != 10);
    lemma_add_header_preserves_wf(base.headers, vanity_name(), value);
    lemma_parse_serialize_round_trip(candidate_view(base, partition, attempt));
}

/// Whether a vanity update can be undone by returning to `previous`: the
/// current commit must carry a vanity header, and stripping every vanity
/// header from it must reproduce the previous commit's serialized text
/// exactly.
pub fn can_revert_to(current: &CommitInfo, previous: &CommitInfo) -> (r: bool)
    ensures
        r == (spec_has_header(current@.headers, vanity_name()) && spec_serialize(
            CommitView {
                headers: spec_remove_header(current@.headers, vanity_name()),
                body: current@.body,
            },
        ) == spec_serialize(previous@)),
{
    let name = vanity_header();
    if !current.has_header(name) {
        return false;
    }
    let stripped = current.remove_header(name);
    let a = stripped.serialize_bytes();
    let b = previous.serialize_bytes();
    bytes_eq(a.as_slice(), b.as_slice())
}

/// The check applied to whatever the result channel delivered: the winner is
/// accepted exactly when it exists and its hash starts with the wanted
/// prefix, and it is handed on unchanged.
pub fn accept_winner(w: Option<CommitInfo>, wanted_prefix: &str) -> (r: Option<CommitInfo>)
    ensures
        r is Some <==> (w matches Some(c) && seq_starts_with(spec_hash(c@), wanted_prefix@)),
        r matches Some(c) ==> w == Some(c),
{
    match w {
        Some(c) => {
            let h = c.hash();
            if str_starts_with(h.as_str(), wanted_prefix) {
                Some(c)
            } else {
                None
            }
        },
        None => None,
    }
}

/// Waits out the race and returns a commit whose hash starts with the wanted
/// prefix, or `None` when every worker exited without a find. The winner's
/// hash is checked again by `accept_winner`, so the guarantee does not rest
/// on what travelled through the channel.
pub fn race_for_prefix(
    manager: ImmutableSearchManager<CommitInfo>,
    wanted_prefix: &str,
) -> (r: Option<CommitInfo>)
    ensures
        r matches Some(c) ==> seq_starts_with(spec_hash(c@), wanted_prefix@),
{
    accept_winner(manager.race(), wanted_prefix)
}

} // verus!
