//! The change detector: turns raw clipboard samples into insert events,
//! and prepares stored entries for being written back to the clipboard.
//!
//! One poll cycle checks text first, then the image snapshot; both checks
//! run every cycle, so a single cycle can emit both events. A failed read
//! (`None`) skips that axis for the cycle — best effort, no retry.

use vstd::prelude::*;

use crate::database::{insert_step, unpinned_count, DatabaseManager};
use crate::types::{str_eq, EntryKind};

verus! {

/// Whether freshly read clipboard text triggers a new-content event:
/// present, non-empty and different from the last seen text.
pub open spec fn text_fires(last: Seq<char>, input: Option<String>) -> bool {
    input matches Some(s) && s@ != last && s@.len() > 0
}

/// Whether a freshly read clipboard image triggers a new-content event:
/// present and different from the last seen snapshot; the very first image
/// always counts as new.
pub open spec fn image_fires(last: Option<String>, input: Option<String>) -> bool {
    input matches Some(s) && (match last {
        None => true,
        Some(l) => s@ != l@,
    })
}

/// In-memory snapshot of the last seen clipboard contents. Owned by the
/// poll loop, scoped to its lifetime, never persisted.
pub struct ChangeDetector {
    pub last_text: String,
    pub last_image: Option<String>,
}

impl ChangeDetector {
    /// A fresh detector: no text seen (so only non-empty text can fire),
    /// no image seen (so the first image always fires).
    pub fn new() -> (d: ChangeDetector)
        ensures
            d.last_text@ =~= Seq::<char>::empty(),
            d.last_image is None,
    {
        ChangeDetector { last_text: String::new(), last_image: None }
    }

    /// Text axis of one poll cycle: hands back the content to insert
    /// exactly when the sample fires, updating the snapshot; otherwise the
    /// detector is unchanged.
    pub fn observe_text(&mut self, input: Option<String>) -> (r: Option<String>)
        ensures
            match input {
                Some(s) => if s@ != old(self).last_text@ && s@.len() > 0 {
                    &&& r == Some(s)
                    &&& final(self).last_text == s
                    &&& final(self).last_image == old(self).last_image
                } else {
                    &&& r is None
                    &&& *final(self) == *old(self)
                },
                None => r is None && *final(self) == *old(self),
            },
            r is Some == text_fires(old(self).last_text@, input),
    {
        match input {
            Some(s) => {
                let fresh = !s.as_str().is_empty() && !str_eq(
                    s.as_str(),
                    self.last_text.as_str(),
                );
                if fresh {
                    self.last_text = s.clone();
                    Some(s)
                } else {
                    None
                }
            },
            None => None,
        }
    }

    /// Image axis of one poll cycle: hands back the encoded blob to insert
    /// exactly when the sample fires, updating the snapshot; otherwise the
    /// detector is unchanged.
    pub fn observe_image(&mut self, input: Option<String>) -> (r: Option<String>)
        ensures
            match input {
                Some(s) => if image_fires(old(self).last_image, Some(s)) {
                    &&& r == Some(s)
                    &&& final(self).last_image == Some(s)
                    &&& final(self).last_text == old(self).last_text
                } else {
                    &&& r is None
                    &&& *final(self) == *old(self)
                },
                None => r is None && *final(self) == *old(self),
            },
            r is Some == image_fires(old(self).last_image, input),
    {
        match input {
            Some(s) => {
                let seen = match &self.last_image {
                    Some(l) => str_eq(l.as_str(), s.as_str()),
                    None => false,
                };
                if !seen {
                    self.last_image = Some(s.clone());
                    Some(s)
                } else {
                    None
                }
            },
            None => None,
        }
    }
}

/// The store transition of the text check of one cycle: an insert exactly
/// when the sample fires, otherwise no change.
pub open spec fn text_step(
    pre: DatabaseManager,
    last: Seq<char>,
    input: Option<String>,
    post: DatabaseManager,
) -> bool {
    match input {
        Some(s) => if s@ != last && s@.len() > 0 {
            insert_step(pre, s@, EntryKind::Text, post)
        } else {
            post == pre
        },
        None => post == pre,
    }
}

/// The store transition of the image check of one cycle: an insert exactly
/// when the sample fires, otherwise no change.
pub open spec fn image_step(
    pre: DatabaseManager,
    last: Option<String>,
    input: Option<String>,
    post: DatabaseManager,
) -> bool {
    match input {
        Some(s) => if image_fires(last, Some(s)) {
            insert_step(pre, s@, EntryKind::Image, post)
        } else {
            post == pre
        },
        None => post == pre,
    }
}

/// One cycle of the clipboard monitor, fed with this cycle's reads (`None`
/// for a failed or absent read, which skips that axis). The text check runs
/// before the image check; each fires at most one insert; the store is
/// untouched when nothing fired. Returns which axes fired; the caller
/// signals the notification sink when either did.
pub fn poll_cycle(
    det: &mut ChangeDetector,
    store: &mut DatabaseManager,
    text: Option<String>,
    image: Option<String>,
) -> (r: (bool, bool))
    requires
        old(store).wf(),
        old(store).next_id < i64::MAX - 1,
    ensures
        final(store).wf(),
        r.0 == text_fires(old(det).last_text@, text),
        r.1 == image_fires(old(det).last_image, image),
        exists|mid: DatabaseManager|
            #[trigger] text_step(*old(store), old(det).last_text@, text, mid) && image_step(
                mid,
                old(det).last_image,
                image,
                *final(store),
            ),
        r.0 ==> (text matches Some(s) && final(det).last_text == s),
        !r.0 ==> final(det).last_text == old(det).last_text,
        r.1 ==> (image matches Some(s) && final(det).last_image == Some(s)),
        !r.1 ==> final(det).last_image == old(det).last_image,
        final(store).config == old(store).config,
        final(store).next_id == old(store).next_id + (if r.0 {
            1int
        } else {
            0int
        }) + (if r.1 {
            1int
        } else {
            0int
        }),
        (r.0 || r.1) ==> unpinned_count(final(store).entries@) <= old(store).cap(),
        (!r.0 && !r.1) ==> *final(store) == *old(store),
{
    let mut fired_text = false;
    match det.observe_text(text) {
        Some(content) => {
            let _id = store.add_clipboard_item(content.as_str(), EntryKind::Text);
            fired_text = true;
        },
        None => {},
    }
    let ghost mid_store = *store;
    proof {
        assert(text_step(*old(store), old(det).last_text@, text, mid_store));
    }
    let mut fired_image = false;
    match det.observe_image(image) {
        Some(content) => {
            let _id = store.add_clipboard_item(content.as_str(), EntryKind::Image);
            fired_image = true;
        },
        None => {},
    }
    proof {
        assert(image_step(mid_store, old(det).last_image, image, *store));
    }
    (fired_text, fired_image)
}

/// What base64 decoding yields on a text, when it decodes at all.
pub uninterp spec fn b64_decode_of(s: Seq<char>) -> Option<Seq<u8>>;

/// The base64 text encoding a byte sequence.
pub uninterp spec fn b64_encode_of(b: Seq<u8>) -> Seq<char>;

/// Relies on base64's `Engine::decode` with the `STANDARD` engine: which
/// texts decode, and to what, is a function of the text alone.
#[verifier::external_body]
fn b64_decode(s: &str) -> (r: Option<Vec<u8>>)
    ensures
        match r {
            Some(b) => b64_decode_of(s@) == Some(b@),
            None => b64_decode_of(s@) is None,
        },
{
    match base64::Engine::decode(&base64::engine::general_purpose::STANDARD, s) {
        Ok(v) => Some(v),
        Err(_) => None,
    }
}

/// Relies on base64's `Engine::encode` with the `STANDARD` engine: the
/// encoding is a function of the bytes alone.
#[verifier::external_body]
fn b64_encode(b: &[u8]) -> (r: String)
    ensures
        r@ == b64_encode_of(b@),
{
    base64::Engine::encode(&base64::engine::general_purpose::STANDARD, b)
}

/// The payload handed to the OS clipboard when a stored entry is re-copied:
/// text goes out unchanged; an image entry is decoded from its stored
/// base64 text and re-encoded, and fails exactly when the stored text is
/// not valid base64.
pub fn prepare_clipboard_payload(content: String, kind: EntryKind) -> (r: Result<String, String>)
    ensures
        kind == EntryKind::Text ==> (r matches Ok(p) && p == content),
        kind == EntryKind::Image ==> match b64_decode_of(content@) {
            Some(bytes) => r matches Ok(p) && p@ == b64_encode_of(bytes),
            None => r is Err,
        },
{
    match kind {
        EntryKind::Text => Ok(content),
        EntryKind::Image => match b64_decode(content.as_str()) {
            Some(bytes) => Ok(b64_encode(bytes.as_slice())),
            None => Err("invalid base64 image data".to_owned()),
        },
    }
}

/// Law: the same clipboard text on two consecutive polls produces exactly
/// one insert event. Once a sample fires, the detector's snapshot equals
/// that sample, so the identical sample cannot fire again.
pub proof fn lemma_text_no_repeat(last: Seq<char>, s: String, last_after: Seq<char>)
    requires
        text_fires(last, Some(s)),
        last_after == s@,
    ensures
        !text_fires(last_after, Some(s)),
{
}

/// Law: the same clipboard image on two consecutive polls produces exactly
/// one insert event.
pub proof fn lemma_image_no_repeat(last: Option<String>, s: String, last_after: Option<String>)
    requires
        image_fires(last, Some(s)),
        last_after matches Some(l) && l@ == s@,
    ensures
        !image_fires(last_after, Some(s)),
{
}

} // verus!
