use vstd::prelude::*;

use crate::sanitizer::{filter_allows, sanitize_option, speakable, TextFilter};

verus! {

/// A single clipboard event carrying the sanitized text ready for speech.
#[derive(Debug, Clone, PartialEq, Eq)]
pub struct ClipboardEvent {
    pub text: String,
}

/// The hash that std's `DefaultHasher` (as made by `DefaultHasher::new`) gives a string.
pub uninterp spec fn str_hash(s: Seq<char>) -> u64;

/// `BuildHasher::hash_one` with `BuildHasherDefault<DefaultHasher>`: a fresh
/// `DefaultHasher::new()` fed `s` and finished. Every hasher made by `DefaultHasher::new`
/// starts the same, so the hash depends on `s` alone (within one build; std does not
/// promise the same algorithm across releases).
#[verifier::external_body]
fn default_hash_one(s: &str) -> (h: u64)
    ensures
        h == str_hash(s@),
{
    std::hash::BuildHasher::hash_one(
        &std::hash::BuildHasherDefault::<std::hash::DefaultHasher>::default(),
        s,
    )
}

/// Computes a cheap hash of `s` to detect content changes without storing the full
/// previous string.
pub fn hash_str(s: &str) -> (h: u64)
    ensures
        h == str_hash(s@),
{
    default_hash_one(s)
}

/// One poll of the clipboard, as a function of the hash last spoken and the raw text read:
/// the next hash to remember and the text to speak, if any. Text is spoken when it
/// survives `sanitize_option`, passes the filter, and differs (by hash) from the text last
/// spoken.
pub open spec fn observe_step(
    last: Option<u64>,
    raw: Seq<char>,
    includes: Seq<Seq<char>>,
    excludes: Seq<Seq<char>>,
) -> (Option<u64>, Option<Seq<char>>) {
    match speakable(raw) {
        Some(clean) => if filter_allows(includes, excludes, clean) && last != Some(
            str_hash(clean),
        ) {
            (Some(str_hash(clean)), Some(clean))
        } else {
            (last, None)
        },
        None => (last, None),
    }
}

/// The deduplicating state of the clipboard watcher: the hash of the text last spoken.
pub struct WatchState {
    last_hash: Option<u64>,
}

impl WatchState {
    /// The hash of the text last spoken, if any.
    pub closed spec fn last_hash(&self) -> Option<u64> {
        self.last_hash
    }

    /// A watcher that has spoken nothing yet.
    pub fn new() -> (w: Self)
        ensures
            w.last_hash() is None,
    {
        WatchState { last_hash: None }
    }

    /// Takes the raw text read from the clipboard; returns the event to emit, if any, and
    /// remembers the hash of what it emits.
    pub fn observe(&mut self, raw: &str, filter: &TextFilter) -> (ev: Option<ClipboardEvent>)
        ensures
            final(self).last_hash() == observe_step(
                old(self).last_hash(),
                raw@,
                filter.includes(),
                filter.excludes(),
            ).0,
            match ev {
                Some(e) => observe_step(
                    old(self).last_hash(),
                    raw@,
                    filter.includes(),
                    filter.excludes(),
                ).1 == Some(e.text@),
                None => observe_step(
                    old(self).last_hash(),
                    raw@,
                    filter.includes(),
                    filter.excludes(),
                ).1 is None,
            },
    {
        match sanitize_option(raw) {
            Some(clean) => {
                if !filter.should_speak(clean.as_str()) {
                    return None;
                }
                let h = hash_str(clean.as_str());
                let repeated = match self.last_hash {
                    Some(l) => l == h,
                    None => false,
                };
                if repeated {
                    None
                } else {
                    self.last_hash = Some(h);
                    Some(ClipboardEvent { text: clean })
                }
            },
            None => None,
        }
    }
}

/// Copying the same content twice gets it spoken only once: the same raw text observed
/// twice in a row never yields a second event.
pub proof fn repeated_text_spoken_once(
    last: Option<u64>,
    raw: Seq<char>,
    includes: Seq<Seq<char>>,
    excludes: Seq<Seq<char>>,
)
    ensures
        observe_step(observe_step(last, raw, includes, excludes).0, raw, includes, excludes).1 is None,
{
}

/// A poll that emits nothing leaves the remembered hash as it was, so skipped content
/// (code, paths, blank or filtered text) never hides the next change.
pub proof fn silent_poll_keeps_state(
    last: Option<u64>,
    raw: Seq<char>,
    includes: Seq<Seq<char>>,
    excludes: Seq<Seq<char>>,
)
    ensures
        observe_step(last, raw, includes, excludes).1 is None ==> observe_step(
            last,
            raw,
            includes,
            excludes,
        ).0 == last,
{
}

/// What is emitted is exactly what `sanitize_option` made of the raw text, and it passes
/// the filter.
pub proof fn emitted_text_is_sanitized_and_allowed(
    last: Option<u64>,
    raw: Seq<char>,
    includes: Seq<Seq<char>>,
    excludes: Seq<Seq<char>>,
)
    ensures
        observe_step(last, raw, includes, excludes).1 matches Some(t) ==> speakable(raw) == Some(t)
            && filter_allows(includes, excludes, t),
{
}

/// A whole run of polls: starting from the remembered hash `last`, observe each raw text
/// of `raws` in turn; the final remembered hash and the texts emitted, in order.
pub open spec fn run_polls(
    last: Option<u64>,
    raws: Seq<Seq<char>>,
    includes: Seq<Seq<char>>,
    excludes: Seq<Seq<char>>,
) -> (Option<u64>, Seq<Seq<char>>)
    decreases raws.len(),
{
    if raws.len() == 0 {
        (last, Seq::empty())
    } else {
        let before = run_polls(last, raws.drop_last(), includes, excludes);
        let step = observe_step(before.0, raws.last(), includes, excludes);
        match step.1 {
            Some(t) => (step.0, before.1.push(t)),
            None => (step.0, before.1),
        }
    }
}

/// Over any run of polls, two events emitted one after the other never carry the same
/// hash (so never the same text): content copied again is not spoken again until other
/// content has been spoken. The first event also differs from what was remembered before
/// the run, and the watcher ends remembering the hash of the last event.
pub proof fn consecutive_events_differ(
    last: Option<u64>,
    raws: Seq<Seq<char>>,
    includes: Seq<Seq<char>>,
    excludes: Seq<Seq<char>>,
)
    ensures
        ({
            let (fin, events) = run_polls(last, raws, includes, excludes);
            &&& forall|k: int|
                0 <= k < events.len() - 1 ==> str_hash(#[trigger] events[k]) != str_hash(
                    events[k + 1],
                )
            &&& events.len() > 0 ==> last != Some(str_hash(events[0]))
            &&& events.len() > 0 ==> fin == Some(str_hash(events.last()))
            &&& events.len() == 0 ==> fin == last
        }),
    decreases raws.len(),
{
    if raws.len() > 0 {
        consecutive_events_differ(last, raws.drop_last(), includes, excludes);
        let before = run_polls(last, raws.drop_last(), includes, excludes);
        let step = observe_step(before.0, raws.last(), includes, excludes);
        if let Some(t) = step.1 {
            let events = before.1.push(t);
            assert forall|k: int| 0 <= k < events.len() - 1 implies str_hash(
                #[trigger] events[k],
            ) != str_hash(events[k + 1]) by {
                if k < before.1.len() - 1 {
                    assert(events[k] == before.1[k]);
                    assert(events[k + 1] == before.1[k + 1]);
                } else {
                    assert(events[k] == before.1.last());
                    assert(events[k + 1] == t);
                }
            }
            if before.1.len() > 0 {
                assert(events[0] == before.1[0]);
            }
        }
    }
}

/// Every poll emits text that is new, speakable and allowed: when `sanitize_option` gives
/// `t`, the filter lets `t` through and the remembered hash is not that of `t` (always so
/// for a fresh watcher), the poll emits exactly `t` and remembers its hash.
pub proof fn new_allowed_text_is_emitted(
    last: Option<u64>,
    raw: Seq<char>,
    includes: Seq<Seq<char>>,
    excludes: Seq<Seq<char>>,
)
    ensures
        speakable(raw) matches Some(t) ==> (filter_allows(includes, excludes, t) && last != Some(
            str_hash(t),
        ) ==> observe_step(last, raw, includes, excludes) == (Some(str_hash(t)), Some(t))),
        speakable(raw) matches Some(t) ==> (filter_allows(includes, excludes, t) ==> observe_step(
            None,
            raw,
            includes,
            excludes,
        ).1 == Some(t)),
{
}

} // verus!
