use vstd::prelude::*;
use crate::digest::{content_hash, content_hash_of};
use crate::error::PDFJsonError;
use crate::schoolday::{day_index, Schoolday};

verus! {

/// What the cache holds for one school day: the content hash of the accepted
/// document and its serialized schedule.
pub type CacheView = Map<Schoolday, (Seq<char>, Seq<char>)>;

/// What an update of one school day's entry did.
#[derive(Debug, Clone, Copy, PartialEq, Eq, Structural)]
pub enum UpdateOutcome {
    /// The document's hash matched the stored one; nothing was extracted.
    Unchanged,
    /// A new schedule was extracted and stored.
    Replaced,
    /// Extraction failed; the entry was left as it was.
    Failed(PDFJsonError),
}

/// The text of an extraction result.
pub open spec fn result_text(b: Result<String, PDFJsonError>) -> Result<Seq<char>, PDFJsonError> {
    match b {
        Ok(j) => Ok(j@),
        Err(e) => Err(e),
    }
}

/// The entry of `day` was accepted from a document whose hash is `h`.
pub open spec fn is_current_spec(c: CacheView, day: Schoolday, h: Seq<char>) -> bool {
    c.contains_key(day) && c[day].0 == h
}

/// The outcome and the new cache when a document with hash `h` arrives for
/// `day` and extraction, if it is run, yields `built`: a known hash changes
/// nothing; otherwise a schedule replaces the entry and a failure leaves the
/// cache as it was.
pub open spec fn cache_after(c: CacheView, day: Schoolday, h: Seq<char>, built: Result<Seq<char>, PDFJsonError>) -> (UpdateOutcome, CacheView) {
    if is_current_spec(c, day, h) {
        (UpdateOutcome::Unchanged, c)
    } else {
        match built {
            Ok(j) => (UpdateOutcome::Replaced, c.insert(day, (h, j))),
            Err(e) => (UpdateOutcome::Failed(e), c),
        }
    }
}

/// The latest serialized schedule of each school day, with the content hash
/// of the document it was extracted from.
pub struct JsonHandler {
    slots: Vec<Option<(String, String)>>,
}

impl JsonHandler {
    /// The five slots exist, one per school day.
    pub closed spec fn wf(&self) -> bool {
        self.slots.len() == 5
    }

    /// Each school day with an entry, mapped to (hash, serialized schedule).
    pub closed spec fn view(&self) -> CacheView {
        Map::new(
            |d: Schoolday| self.slots@[day_index(d) as int] is Some,
            |d: Schoolday|
                {
                    let e = self.slots@[day_index(d) as int].unwrap();
                    (e.0@, e.1@)
                },
        )
    }

    /// An empty cache.
    pub fn new() -> (r: Self)
        ensures
            r.wf(),
            r.view() == Map::<Schoolday, (Seq<char>, Seq<char>)>::empty(),
    {
        let r = JsonHandler { slots: vec![None, None, None, None, None] };
        assert(r.view() =~= Map::<Schoolday, (Seq<char>, Seq<char>)>::empty());
        r
    }

    /// The serialized schedule stored for `day`, if any.
    pub fn get_json(&self, day: Schoolday) -> (r: Option<String>)
        requires
            self.wf(),
        ensures
            r is Some <==> self.view().contains_key(day),
            r matches Some(j) ==> j@ == self.view()[day].1,
    {
        match &self.slots[day.index()] {
            Some(e) => Some(e.1.clone()),
            None => None,
        }
    }

    /// The content hash of the document accepted for `day`, if any.
    pub fn stored_hash(&self, day: Schoolday) -> (r: Option<String>)
        requires
            self.wf(),
        ensures
            r is Some <==> self.view().contains_key(day),
            r matches Some(h) ==> h@ == self.view()[day].0,
    {
        match &self.slots[day.index()] {
            Some(e) => Some(e.0.clone()),
            None => None,
        }
    }

    /// Whether the entry of `day` was accepted from a document with hash `hash`.
    pub fn is_current(&self, day: Schoolday, hash: &String) -> (r: bool)
        requires
            self.wf(),
        ensures
            r == is_current_spec(self.view(), day, hash@),
    {
        match &self.slots[day.index()] {
            Some(e) => e.0 == *hash,
            None => false,
        }
    }

    /// Stores the schedule `json` extracted from a document with hash `hash`
    /// as the entry of `day`, replacing any earlier one.
    pub fn store(&mut self, day: Schoolday, hash: String, json: String)
        requires
            old(self).wf(),
        ensures
            final(self).wf(),
            final(self).view() == old(self).view().insert(day, (hash@, json@)),
    {
        let ghost hv = hash@;
        let ghost jv = json@;
        let i = day.index();
        self.slots.set(i, Some((hash, json)));
        proof {
            assert forall|d: Schoolday| #[trigger] day_index(d) == day_index(day) implies d == day by {}
            assert(self.view() =~= old(self).view().insert(day, (hv, jv)));
        }
    }

    /// Records the outcome of extracting a document with hash `hash` for
    /// `day`, as `cache_after` describes: nothing changes when the entry is
    /// already current for `hash`; a schedule replaces the entry; an error
    /// leaves the cache as it was.
    pub fn apply_extraction(&mut self, day: Schoolday, hash: String, built: Result<String, PDFJsonError>) -> (r: UpdateOutcome)
        requires
            old(self).wf(),
        ensures
            final(self).wf(),
            (r, final(self).view()) == cache_after(old(self).view(), day, hash@, result_text(built)),
    {
        if self.is_current(day, &hash) {
            return UpdateOutcome::Unchanged;
        }
        match built {
            Ok(json) => {
                self.store(day, hash, json);
                UpdateOutcome::Replaced
            },
            Err(e) => UpdateOutcome::Failed(e),
        }
    }

    /// Offers the document `pdf` for `day`. When its content hash is the one
    /// stored for `day`, returns `Unchanged` without calling `build`.
    /// Otherwise calls `build` on the document: a schedule is stored with the
    /// hash and `Replaced` returned; an error leaves the cache as it was and
    /// is returned in `Failed`.
    pub fn update<F: Fn(&Vec<u8>) -> Result<String, PDFJsonError>>(&mut self, day: Schoolday, pdf: &Vec<u8>, build: F) -> (r: UpdateOutcome)
        requires
            old(self).wf(),
            build.requires((pdf,)),
        ensures
            final(self).wf(),
            is_current_spec(old(self).view(), day, content_hash_of(pdf@)) ==> r == UpdateOutcome::Unchanged
                && final(self).view() == old(self).view(),
            !is_current_spec(old(self).view(), day, content_hash_of(pdf@)) ==> exists|b: Result<String, PDFJsonError>|
                build.ensures((pdf,), b) && (r, final(self).view()) == cache_after(
                    old(self).view(),
                    day,
                    content_hash_of(pdf@),
                    result_text(b),
                ),
    {
        let hash = content_hash(pdf);
        if self.is_current(day, &hash) {
            return UpdateOutcome::Unchanged;
        }
        let built = build(pdf);
        let ghost b = built;
        let r = self.apply_extraction(day, hash, built);
        assert(build.ensures((pdf,), b));
        r
    }
}

/// Offering the same document twice in a row: when the first offer finds the
/// slot not current and extraction succeeds, it replaces the entry, and the
/// second offer reports `Unchanged` and leaves the cache as the first left it.
pub proof fn lemma_update_twice(c: CacheView, day: Schoolday, h: Seq<char>, json: Seq<char>, second: Result<Seq<char>, PDFJsonError>)
    requires
        !is_current_spec(c, day, h),
    ensures
        cache_after(c, day, h, Ok(json)).0 == UpdateOutcome::Replaced,
        cache_after(cache_after(c, day, h, Ok(json)).1, day, h, second) == (
            UpdateOutcome::Unchanged,
            cache_after(c, day, h, Ok(json)).1,
        ),
{
}

/// A failed extraction changes no entry of the cache.
pub proof fn lemma_failed_update_keeps_cache(c: CacheView, day: Schoolday, h: Seq<char>, e: PDFJsonError)
    ensures
        cache_after(c, day, h, Err(e)).1 == c,
{
}

} // verus!
