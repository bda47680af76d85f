//! Catalog entries, the tag rule, and the fold from a bucket listing to the
//! visible catalog.
use vstd::prelude::*;
use crate::filter::matches_spec;
use crate::signer::UrlSigner;

verus! {

/// One object of a bucket listing, as the store reports it.
pub struct BucketObject {
    pub key: Option<String>,
    pub size: Option<i64>,
    pub e_tag: Option<String>,
}

/// One key/value tag of a stored object.
pub struct ObjectTag {
    pub key: String,
    pub value: String,
}

/// Violations of the bucket's naming and tagging rules; each aborts a catalog.
#[derive(Clone, Copy, Debug, PartialEq, Eq, Structural)]
pub enum S3ObjectError {
    FileWithNoName,
    MultipleTagsWithSameName,
}

/// A catalog entry.
pub struct S3Object {
    pub file_name: String,
    pub presigned_url: String,
    pub tags: String,
    pub e_tag: String,
    pub is_filtered: bool,
}

/// What the catalog says of an entry, leaving out its access URL.
pub struct EntryView {
    pub file_name: Seq<char>,
    pub e_tag: Seq<char>,
    pub tags: Seq<char>,
    pub hidden: bool,
}

impl View for S3Object {
    type V = EntryView;

    open spec fn view(&self) -> EntryView {
        EntryView {
            file_name: self.file_name@,
            e_tag: self.e_tag@,
            tags: self.tags@,
            hidden: self.is_filtered,
        }
    }
}

impl S3Object {
    pub fn new(
        file_name: String,
        e_tag: String,
        categories_string: String,
        presigned_url: String,
        is_filtered: bool,
    ) -> (r: S3Object)
        ensures
            r.file_name@ == file_name@,
            r.e_tag@ == e_tag@,
            r.tags@ == categories_string@,
            r.presigned_url@ == presigned_url@,
            r.is_filtered == is_filtered,
    {
        S3Object { file_name, e_tag, tags: categories_string, presigned_url, is_filtered }
    }

    pub fn is_hidden(&self) -> (r: bool)
        ensures
            r == self.is_filtered,
    {
        self.is_filtered
    }
}

/// The visible catalog of a bucket.
pub struct BucketContents {
    pub data: Vec<S3Object>,
}

impl View for BucketContents {
    type V = Seq<EntryView>;

    open spec fn view(&self) -> Seq<EntryView> {
        self.data@.map_values(|o: S3Object| o@)
    }
}

impl BucketContents {
    pub fn new(contents: Vec<S3Object>) -> (r: BucketContents)
        ensures
            r.data@ == contents@,
    {
        BucketContents { data: contents }
    }

    pub fn empty_bucket() -> (r: BucketContents)
        ensures
            r.data@.len() == 0,
    {
        BucketContents { data: Vec::new() }
    }
}

/// Kept for callers of the catalog's public interface; it has nothing to
/// do, since `CatalogBuilder` does the listing.
pub fn list_bucket_contents() {
}

/// The tag key whose value carries an object's categories.
pub open spec fn tags_key() -> Seq<char> {
    seq!['t', 'a', 'g', 's']
}

/// Folder markers have no size or a size of zero.
pub open spec fn is_folder(o: BucketObject) -> bool {
    o.size is None || o.size == Some(0i64)
}

/// The tags of a set that are keyed "tags".
pub open spec fn category_tags(tags: Seq<ObjectTag>) -> Seq<ObjectTag> {
    tags.filter(|t: ObjectTag| t.key@ == tags_key())
}

/// The tag string of a tag set: the value of its one "tags" tag, empty when
/// it has none, an error when it has several.
pub open spec fn tag_string_of(tags: Seq<ObjectTag>) -> Result<Seq<char>, S3ObjectError> {
    let found = category_tags(tags);
    if found.len() > 1 {
        Err(S3ObjectError::MultipleTagsWithSameName)
    } else if found.len() == 1 {
        Ok(found[0].value@)
    } else {
        Ok(Seq::empty())
    }
}

pub open spec fn e_tag_of(o: BucketObject) -> Seq<char> {
    match o.e_tag {
        Some(e) => e@,
        None => Seq::empty(),
    }
}

/// The entry that a non-folder object with tag set `tags` becomes under `term`.
pub open spec fn entry_of(o: BucketObject, tags: Seq<ObjectTag>, term: Seq<char>) -> Result<
    EntryView,
    S3ObjectError,
> {
    match o.key {
        None => Err(S3ObjectError::FileWithNoName),
        Some(k) => match tag_string_of(tags) {
            Err(e) => Err(e),
            Ok(ts) => Ok(
                EntryView {
                    file_name: k@,
                    e_tag: e_tag_of(o),
                    tags: ts,
                    hidden: !matches_spec(k@, ts, term),
                },
            ),
        },
    }
}

pub open spec fn visible(entries: Seq<EntryView>) -> Seq<EntryView> {
    entries.filter(|e: EntryView| !e.hidden)
}

/// The entries of the first `n` objects of `listing`, `tag_sets[i]` being the
/// tag set of `listing[i]`, or the first rule violation among them.
pub open spec fn scan(
    listing: Seq<BucketObject>,
    tag_sets: Seq<Seq<ObjectTag>>,
    term: Seq<char>,
    n: nat,
) -> Result<Seq<EntryView>, S3ObjectError>
    decreases n,
{
    if n == 0 {
        Ok(Seq::empty())
    } else {
        match scan(listing, tag_sets, term, (n - 1) as nat) {
            Err(e) => Err(e),
            Ok(prev) => {
                let o = listing[n - 1];
                if is_folder(o) {
                    Ok(prev)
                } else {
                    match entry_of(o, tag_sets[n - 1], term) {
                        Err(e) => Err(e),
                        Ok(entry) => Ok(prev.push(entry)),
                    }
                }
            },
        }
    }
}

/// The catalog of `listing` under `term`: its visible entries in listing
/// order, or the first rule violation.
pub open spec fn catalog(
    listing: Seq<BucketObject>,
    tag_sets: Seq<Seq<ObjectTag>>,
    term: Seq<char>,
) -> Result<Seq<EntryView>, S3ObjectError> {
    match scan(listing, tag_sets, term, listing.len()) {
        Err(e) => Err(e),
        Ok(entries) => Ok(visible(entries)),
    }
}

fn is_tags_key(key: &String) -> (r: bool)
    ensures
        r == (key@ == tags_key()),
{
    let name: String = "tags".to_owned();
    proof {
        reveal_strlit("tags");
    }
    assert(name@ =~= tags_key());
    *key == name
}

/// Picks the tag string out of a tag set.
pub fn select_tag_string(tags: &Vec<ObjectTag>) -> (r: Result<String, S3ObjectError>)
    ensures
        match r {
            Ok(s) => tag_string_of(tags@) == Ok::<Seq<char>, S3ObjectError>(s@),
            Err(e) => tag_string_of(tags@) == Err::<Seq<char>, S3ObjectError>(e),
        },
{
    let mut found: Option<usize> = None;
    let mut i: usize = 0;
    while i < tags.len()
        invariant
            i <= tags@.len(),
            match found {
                None => category_tags(tags@.subrange(0, i as int)).len() == 0,
                Some(j) => j < i && category_tags(tags@.subrange(0, i as int)) == seq![tags@[j as int]],
            },
        decreases tags@.len() - i,
    {
        assert(tags@.subrange(0, i + 1) =~= tags@.subrange(0, i as int).push(tags@[i as int]));
        proof {
            lemma_filter_push(tags@.subrange(0, i as int), tags@[i as int], |t: ObjectTag| t.key@ == tags_key());
        }
        if is_tags_key(&tags[i].key) {
            if found.is_some() {
                assert(category_tags(tags@.subrange(0, i + 1)).len() == 2);
                assert(tags@.subrange(0, tags@.len() as int) =~= tags@);
                proof {
                    lemma_filter_prefix_len(tags@, i + 1);
                }
                return Err(S3ObjectError::MultipleTagsWithSameName);
            }
            assert(category_tags(tags@.subrange(0, i + 1)) =~= seq![tags@[i as int]]);
            found = Some(i);
        }
        i = i + 1;
    }
    assert(tags@.subrange(0, tags@.len() as int) =~= tags@);
    match found {
        None => Ok(String::new()),
        Some(j) => Ok(tags[j].value.clone()),
    }
}

/// Builds the catalog entry of one object from its tag set: the entry is
/// hidden when it does not match `term`, and a URL is minted only for entries
/// that are shown.
pub fn build_entry(
    obj: &BucketObject,
    tags: &Vec<ObjectTag>,
    term: &str,
    signer: &mut UrlSigner,
) -> (r: Result<S3Object, S3ObjectError>)
    ensures
        match r {
            Ok(o) => entry_of(*obj, tags@, term@) == Ok::<EntryView, S3ObjectError>(o@) && (o.is_filtered
                <==> o.presigned_url@.len() == 0),
            Err(e) => entry_of(*obj, tags@, term@) == Err::<EntryView, S3ObjectError>(e),
        },
        final(signer).minted() == (if r is Ok && !r->Ok_0.is_filtered {
            old(signer).minted().push(r->Ok_0.file_name@)
        } else {
            old(signer).minted()
        }),
        final(signer).bucket_view() == old(signer).bucket_view(),
        final(signer).access_key_view() == old(signer).access_key_view(),
        final(signer).region_name_view() == old(signer).region_name_view(),
{
    let file_name = match &obj.key {
        None => {
            return Err(S3ObjectError::FileWithNoName);
        },
        Some(k) => k.clone(),
    };
    let e_tag = match &obj.e_tag {
        Some(e) => e.clone(),
        None => String::new(),
    };
    let tag_value = match select_tag_string(tags) {
        Err(e) => {
            return Err(e);
        },
        Ok(v) => v,
    };
    if crate::filter::matches(file_name.as_str(), tag_value.as_str(), term) {
        let presigned_url = signer.get_presigned_url_for_file(&file_name);
        Ok(S3Object::new(file_name, e_tag, tag_value, presigned_url, false))
    } else {
        Ok(S3Object::new(file_name, e_tag, tag_value, String::new(), true))
    }
}

/// Which objects to fetch tag sets for, and the catalog they add up to.
///
/// The store is driven from outside: `next_request` names the object whose
/// tag set is needed next, `receive_tags` hands that tag set in, and once no
/// request is left `finish` yields the catalog or the first rule violation.
/// Objects are taken in listing order and folder markers are skipped.
pub struct CatalogBuilder {
    listing: Vec<BucketObject>,
    term: String,
    next: usize,
    awaiting: bool,
    failure: Option<S3ObjectError>,
    entries: Vec<S3Object>,
    tag_sets: Ghost<Seq<Seq<ObjectTag>>>,
}

impl CatalogBuilder {
    pub closed spec fn listing_view(&self) -> Seq<BucketObject> {
        self.listing@
    }

    pub closed spec fn term_view(&self) -> Seq<char> {
        self.term@
    }

    /// The tag sets handed in so far, by listing index (folder markers and
    /// unnamed objects hold an empty set).
    pub closed spec fn tag_sets(&self) -> Seq<Seq<ObjectTag>> {
        self.tag_sets@
    }

    /// Index of the object being examined.
    pub closed spec fn position(&self) -> nat {
        self.next as nat
    }

    /// The rule violation that ended the catalog, if any.
    pub closed spec fn failure(&self) -> Option<S3ObjectError> {
        self.failure
    }

    pub closed spec fn awaiting(&self) -> bool {
        self.awaiting
    }

    pub closed spec fn done(&self) -> bool {
        self.failure is Some || (!self.awaiting && self.next == self.listing@.len())
    }

    pub closed spec fn wf(&self) -> bool {
        &&& self.next <= self.listing@.len()
        &&& self.tag_sets@.len() == self.next
        &&& match self.failure {
            None => {
                let s = scan(self.listing@, self.tag_sets@, self.term@, self.next as nat);
                &&& s is Ok
                &&& self.entries@.map_values(|o: S3Object| o@) == visible(s->Ok_0)
                &&& forall|i: int|
                    0 <= i < self.entries@.len() ==> (#[trigger] self.entries@[i]).presigned_url@.len() > 0
            },
            Some(e) => {
                &&& scan(self.listing@, self.tag_sets@, self.term@, self.next as nat) == Err::<
                    Seq<EntryView>,
                    S3ObjectError,
                >(e)
                &&& !self.awaiting
            },
        }
        &&& self.awaiting ==> {
            &&& self.next < self.listing@.len()
            &&& !is_folder(self.listing@[self.next as int])
            &&& self.listing@[self.next as int].key is Some
        }
    }

    /// Starts a catalog of `listing` (none means an empty bucket) under the
    /// search term `term` (empty means no filtering).
    pub fn new(listing: Option<Vec<BucketObject>>, term: String) -> (r: CatalogBuilder)
        ensures
            r.wf(),
            r.listing_view() == (match listing {
                Some(v) => v@,
                None => Seq::<BucketObject>::empty(),
            }),
            r.term_view() == term@,
            r.tag_sets() == Seq::<Seq<ObjectTag>>::empty(),
            r.position() == 0,
            r.failure() is None,
            !r.awaiting(),
    {
        let listing = match listing {
            Some(v) => v,
            None => Vec::new(),
        };
        let r = CatalogBuilder {
            listing,
            term,
            next: 0,
            awaiting: false,
            failure: None,
            entries: Vec::new(),
            tag_sets: Ghost(Seq::empty()),
        };
        assert(r.entries@.map_values(|o: S3Object| o@) =~= visible(Seq::empty())) by {
            reveal(Seq::filter);
        }
        r
    }

    /// True once no tag set is needed any more and `finish` may be called.
    pub fn is_done(&self) -> (r: bool)
        ensures
            r == self.done(),
    {
        self.failure.is_some() || (!self.awaiting && self.next == self.listing.len())
    }

    /// Moves past folder markers to the next object and returns its name,
    /// whose tag set is needed next; `None` once the catalog is complete or
    /// has failed. An object without a name fails the catalog here, before any
    /// tag set of it is fetched.
    pub fn next_request(&mut self) -> (r: Option<String>)
        requires
            old(self).wf(),
        ensures
            final(self).wf(),
            final(self).listing_view() == old(self).listing_view(),
            final(self).term_view() == old(self).term_view(),
            final(self).tag_sets().len() >= old(self).tag_sets().len(),
            final(self).tag_sets().subrange(0, old(self).tag_sets().len() as int) == old(self).tag_sets(),
            forall|i: int|
                old(self).tag_sets().len() <= i < final(self).tag_sets().len()
                    ==> #[trigger] final(self).tag_sets()[i] == Seq::<ObjectTag>::empty(),
            forall|j: int|
                old(self).tag_sets().len() <= j < final(self).tag_sets().len() ==> is_folder(
                    #[trigger] final(self).listing_view()[j],
                ) || (j == final(self).tag_sets().len() - 1 && old(self).failure() is None
                    && final(self).failure() is Some),
            final(self).failure() != old(self).failure() ==> {
                &&& old(self).failure() is None
                &&& final(self).failure() == Some(S3ObjectError::FileWithNoName)
                &&& final(self).position() > 0
                &&& !is_folder(final(self).listing_view()[final(self).position() - 1])
                &&& final(self).listing_view()[final(self).position() - 1].key is None
            },
            r is None ==> final(self).failure() is Some || final(self).position()
                == final(self).listing_view().len(),
            final(self).position() == final(self).tag_sets().len(),
            final(self).position() <= final(self).listing_view().len(),
            old(self).awaiting() ==> final(self).tag_sets() == old(self).tag_sets(),
            old(self).done() ==> r is None && final(self).tag_sets() == old(self).tag_sets(),
            match r {
                Some(k) => {
                    &&& final(self).awaiting()
                    &&& final(self).failure() is None
                    &&& final(self).position() < final(self).listing_view().len()
                    &&& !is_folder(final(self).listing_view()[final(self).position() as int])
                    &&& final(self).listing_view()[final(self).position() as int].key is Some
                    &&& final(self).listing_view()[final(self).position() as int].key->Some_0@ == k@
                },
                None => final(self).done(),
            },
    {
        if self.failure.is_some() {
            return None;
        }
        if self.awaiting {
            return match &self.listing[self.next].key {
                Some(k) => Some(k.clone()),
                None => None,
            };
        }
        if self.next == self.listing.len() {
            return None;
        }
        let ghost t0 = self.tag_sets@;
        while self.next < self.listing.len()
            invariant
                self.wf(),
                !self.awaiting,
                self.failure is None,
                self.listing@ == old(self).listing@,
                self.term@ == old(self).term@,
                self.tag_sets@.len() >= t0.len(),
                self.tag_sets@.subrange(0, t0.len() as int) == t0,
                forall|i: int|
                    t0.len() <= i < self.tag_sets@.len() ==> #[trigger] self.tag_sets@[i] == Seq::<
                        ObjectTag,
                    >::empty(),
                t0 == old(self).tag_sets@,
                !old(self).awaiting,
                !old(self).done(),
                forall|j: int|
                    t0.len() <= j < self.tag_sets@.len() ==> is_folder(#[trigger] self.listing@[j]),
            decreases self.listing@.len() - self.next,
        {
            let i = self.next;
            let ghost prev = self.tag_sets@;
            let ghost t1 = prev.push(Seq::<ObjectTag>::empty());
            proof {
                lemma_scan_same_prefix(self.listing@, prev, self.listing@, t1, self.term@, i as nat);
            }
            let is_file = match self.listing[i].size {
                None => false,
                Some(size) => size != 0,
            };
            if is_file {
                if self.listing[i].key.is_none() {
                    self.tag_sets = Ghost(t1);
                    self.next = i + 1;
                    self.failure = Some(S3ObjectError::FileWithNoName);
                    assert(self.tag_sets@.subrange(0, t0.len() as int) =~= t0);
                    return None;
                }
                self.awaiting = true;
                return match &self.listing[i].key {
                    Some(k) => Some(k.clone()),
                    None => None,
                };
            }
            self.tag_sets = Ghost(t1);
            self.next = i + 1;
            assert(self.tag_sets@.subrange(0, t0.len() as int) =~= t0);
        }
        None
    }

    /// Hands in the tag set of the object named by the last request and adds
    /// its entry; a URL is minted exactly for an entry that is shown. Does
    /// nothing when no tag set is awaited.
    pub fn receive_tags(&mut self, tags: Vec<ObjectTag>, signer: &mut UrlSigner)
        requires
            old(self).wf(),
        ensures
            final(self).wf(),
            final(self).listing_view() == old(self).listing_view(),
            final(self).term_view() == old(self).term_view(),
            !final(self).awaiting(),
            final(self).position() == final(self).tag_sets().len(),
            final(self).position() <= final(self).listing_view().len(),
            old(self).awaiting() ==> old(self).position() == old(self).tag_sets().len(),
            final(signer).bucket_view() == old(signer).bucket_view(),
            final(signer).access_key_view() == old(signer).access_key_view(),
            final(signer).region_name_view() == old(signer).region_name_view(),
            old(self).awaiting() ==> {
                let e = entry_of(
                    old(self).listing_view()[old(self).position() as int],
                    tags@,
                    old(self).term_view(),
                );
                &&& final(self).tag_sets() == old(self).tag_sets().push(tags@)
                &&& e is Err ==> final(self).done() && final(self).failure() == Some(e->Err_0)
                &&& e is Ok ==> final(self).failure() is None
                &&& final(signer).minted() == (if e is Ok && !e->Ok_0.hidden {
                    old(signer).minted().push(e->Ok_0.file_name)
                } else {
                    old(signer).minted()
                })
            },
            !old(self).awaiting() ==> final(self).failure() == old(self).failure(),
            !old(self).awaiting() ==> final(self).tag_sets() == old(self).tag_sets()
                && final(signer).minted() == old(signer).minted(),
    {
        if !self.awaiting {
            return;
        }
        let i = self.next;
        assert(i < self.listing.len());
        let ghost prev = self.tag_sets@;
        let ghost t1 = prev.push(tags@);
        proof {
            lemma_scan_same_prefix(self.listing@, prev, self.listing@, t1, self.term@, i as nat);
        }
        let built = build_entry(&self.listing[i], &tags, self.term.as_str(), signer);
        self.awaiting = false;
        self.tag_sets = Ghost(t1);
        self.next = i + 1;
        match built {
            Err(e) => {
                self.failure = Some(e);
            },
            Ok(entry) => {
                let ghost old_entries = self.entries@;
                let ghost s = scan(self.listing@, prev, self.term@, i as nat)->Ok_0;
                proof {
                    lemma_filter_push(s, entry@, |e: EntryView| !e.hidden);
                }
                let ghost shown = entry@;
                if !entry.is_hidden() {
                    self.entries.push(entry);
                    assert(self.entries@.map_values(|o: S3Object| o@) =~= old_entries.map_values(
                        |o: S3Object| o@,
                    ).push(shown));
                }
            },
        }
    }

    /// The catalog: every shown entry in listing order, or the first rule
    /// violation, in which case whatever the later objects hold does not
    /// matter.
    pub fn finish(self) -> (r: Result<BucketContents, S3ObjectError>)
        requires
            self.wf(),
            self.done(),
        ensures
            r is Ok <==> self.failure() is None,
            match r {
                Ok(contents) => {
                    &&& self.tag_sets().len() == self.listing_view().len()
                    &&& catalog(self.listing_view(), self.tag_sets(), self.term_view()) == Ok::<
                        Seq<EntryView>,
                        S3ObjectError,
                    >(contents@)
                    &&& forall|i: int|
                        0 <= i < contents.data@.len() ==> (#[trigger] contents.data@[i]).presigned_url@.len()
                            > 0
                },
                Err(e) => forall|later: Seq<Seq<ObjectTag>>|
                    later.len() == self.listing_view().len() && later.subrange(
                        0,
                        self.tag_sets().len() as int,
                    ) == self.tag_sets() ==> #[trigger] catalog(
                        self.listing_view(),
                        later,
                        self.term_view(),
                    ) == Err::<Seq<EntryView>, S3ObjectError>(e),
            },
    {
        match self.failure {
            Some(e) => {
                proof {
                    assert forall|later: Seq<Seq<ObjectTag>>|
                        later.len() == self.listing@.len() && later.subrange(
                            0,
                            self.tag_sets@.len() as int,
                        ) == self.tag_sets@ implies #[trigger] catalog(
                        self.listing@,
                        later,
                        self.term@,
                    ) == Err::<Seq<EntryView>, S3ObjectError>(e) by {
                        lemma_scan_same_prefix(
                            self.listing@,
                            self.tag_sets@,
                            self.listing@,
                            later,
                            self.term@,
                            self.next as nat,
                        );
                        lemma_scan_error_stays(self.listing@, later, self.term@, self.next as nat, self.listing@.len());
                    }
                }
                Err(e)
            },
            None => Ok(BucketContents::new(self.entries)),
        }
    }
}

/// Scans agree on a prefix where the listings and the tag sets agree.
pub proof fn lemma_scan_same_prefix(
    l1: Seq<BucketObject>,
    t1: Seq<Seq<ObjectTag>>,
    l2: Seq<BucketObject>,
    t2: Seq<Seq<ObjectTag>>,
    term: Seq<char>,
    n: nat,
)
    requires
        n <= l1.len(),
        n <= l2.len(),
        n <= t1.len(),
        n <= t2.len(),
        forall|i: int| 0 <= i < n ==> l1[i] == l2[i] && t1[i] == t2[i],
    ensures
        scan(l1, t1, term, n) == scan(l2, t2, term, n),
    decreases n,
{
    if n > 0 {
        lemma_scan_same_prefix(l1, t1, l2, t2, term, (n - 1) as nat);
    }
}

/// Once a prefix of the listing violates a rule, every longer prefix reports
/// that violation.
pub proof fn lemma_scan_error_stays(
    listing: Seq<BucketObject>,
    tag_sets: Seq<Seq<ObjectTag>>,
    term: Seq<char>,
    n: nat,
    m: nat,
)
    requires
        n <= m,
        scan(listing, tag_sets, term, n) is Err,
    ensures
        scan(listing, tag_sets, term, m) == scan(listing, tag_sets, term, n),
    decreases m - n,
{
    if n < m {
        lemma_scan_error_stays(listing, tag_sets, term, n, (m - 1) as nat);
    }
}

/// Filtering a sequence extended by one element.
pub proof fn lemma_filter_push<A>(s: Seq<A>, x: A, pred: spec_fn(A) -> bool)
    ensures
        s.push(x).filter(pred) == (if pred(x) {
            s.filter(pred).push(x)
        } else {
            s.filter(pred)
        }),
{
    reveal(Seq::filter);
    assert(s.push(x).drop_last() =~= s);
}

/// Filtering a longer prefix keeps at least as many "tags" tags.
proof fn lemma_filter_prefix_len(tags: Seq<ObjectTag>, n: int)
    requires
        0 <= n <= tags.len(),
    ensures
        category_tags(tags).len() >= category_tags(tags.subrange(0, n)).len(),
    decreases tags.len() - n,
{
    if n < tags.len() {
        assert(tags.subrange(0, n + 1) =~= tags.subrange(0, n).push(tags[n]));
        lemma_filter_push(tags.subrange(0, n), tags[n], |t: ObjectTag| t.key@ == tags_key());
        lemma_filter_prefix_len(tags, n + 1);
    } else {
        assert(tags.subrange(0, n) =~= tags);
    }
}

} // verus!
