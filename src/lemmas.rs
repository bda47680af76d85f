//! What holds of every catalog, whatever the bucket holds.
use vstd::prelude::*;
use crate::catalog::{
    catalog, entry_of, is_folder, lemma_scan_error_stays, lemma_scan_same_prefix, scan, tag_string_of, tags_key, visible,
    BucketContents, BucketObject, EntryView, ObjectTag, S3ObjectError,
};
use crate::filter::matches_spec;

verus! {

/// A successful scan of a listing extends the successful scan of each of its
/// prefixes.
proof fn lemma_scan_ok_extends(
    listing: Seq<BucketObject>,
    tag_sets: Seq<Seq<ObjectTag>>,
    term: Seq<char>,
    n: nat,
    m: nat,
)
    requires
        n <= m,
        scan(listing, tag_sets, term, m) is Ok,
    ensures
        scan(listing, tag_sets, term, n) is Ok,
        scan(listing, tag_sets, term, n)->Ok_0.len() <= scan(listing, tag_sets, term, m)->Ok_0.len(),
        scan(listing, tag_sets, term, m)->Ok_0.subrange(
            0,
            scan(listing, tag_sets, term, n)->Ok_0.len() as int,
        ) == scan(listing, tag_sets, term, n)->Ok_0,
    decreases m - n,
{
    if n < m {
        let p = (m - 1) as nat;
        if scan(listing, tag_sets, term, p) is Err {
            lemma_scan_error_stays(listing, tag_sets, term, p, m);
        }
        lemma_scan_ok_extends(listing, tag_sets, term, n, p);
        let a = scan(listing, tag_sets, term, n)->Ok_0;
        let b = scan(listing, tag_sets, term, p)->Ok_0;
        let c = scan(listing, tag_sets, term, m)->Ok_0;
        assert(c.subrange(0, a.len() as int) =~= b.subrange(0, a.len() as int));
    } else {
        let c = scan(listing, tag_sets, term, m)->Ok_0;
        assert(c.subrange(0, c.len() as int) =~= c);
    }
}

/// Every shown entry of a scan matches the term.
proof fn lemma_shown_entries_match(
    listing: Seq<BucketObject>,
    tag_sets: Seq<Seq<ObjectTag>>,
    term: Seq<char>,
    n: nat,
)
    requires
        scan(listing, tag_sets, term, n) is Ok,
    ensures
        forall|k: int|
            0 <= k < visible(scan(listing, tag_sets, term, n)->Ok_0).len() ==> matches_spec(
                (#[trigger] visible(scan(listing, tag_sets, term, n)->Ok_0)[k]).file_name,
                visible(scan(listing, tag_sets, term, n)->Ok_0)[k].tags,
                term,
            ),
    decreases n,
{
    if n == 0 {
        assert(visible(Seq::<EntryView>::empty()) =~= Seq::<EntryView>::empty()) by {
            reveal(Seq::filter);
        }
    } else {
        let p = (n - 1) as nat;
        lemma_shown_entries_match(listing, tag_sets, term, p);
        let o = listing[p as int];
        if !is_folder(o) {
            let prev = scan(listing, tag_sets, term, p)->Ok_0;
            let e = entry_of(o, tag_sets[p as int], term)->Ok_0;
            crate::catalog::lemma_filter_push(prev, e, |e: EntryView| !e.hidden);
            let cur = visible(scan(listing, tag_sets, term, n)->Ok_0);
            assert forall|k: int| 0 <= k < cur.len() implies matches_spec(
                (#[trigger] cur[k]).file_name,
                cur[k].tags,
                term,
            ) by {
                if k < visible(prev).len() {
                    assert(cur[k] == visible(prev)[k]);
                } else {
                    assert(cur[k] == e);
                }
            }
        }
    }
}

/// Every shown entry of a scan of the first `n` objects comes from a named
/// object among them that is not a folder marker.
proof fn lemma_shown_entries_from_files(
    listing: Seq<BucketObject>,
    tag_sets: Seq<Seq<ObjectTag>>,
    term: Seq<char>,
    n: nat,
)
    requires
        n <= listing.len(),
        scan(listing, tag_sets, term, n) is Ok,
    ensures
        forall|k: int|
            0 <= k < visible(scan(listing, tag_sets, term, n)->Ok_0).len() ==> exists|i: int|
                0 <= i < n && !is_folder(#[trigger] listing[i]) && listing[i].key is Some
                    && listing[i].key->Some_0@ == (#[trigger] visible(
                    scan(listing, tag_sets, term, n)->Ok_0,
                )[k]).file_name,
    decreases n,
{
    if n == 0 {
        assert(visible(Seq::<EntryView>::empty()) =~= Seq::<EntryView>::empty()) by {
            reveal(Seq::filter);
        }
    } else {
        let p = (n - 1) as nat;
        lemma_shown_entries_from_files(listing, tag_sets, term, p);
        let o = listing[p as int];
        let prev = scan(listing, tag_sets, term, p)->Ok_0;
        let cur = visible(scan(listing, tag_sets, term, n)->Ok_0);
        if !is_folder(o) {
            let e = entry_of(o, tag_sets[p as int], term)->Ok_0;
            crate::catalog::lemma_filter_push(prev, e, |e: EntryView| !e.hidden);
        }
        assert forall|k: int| 0 <= k < cur.len() implies exists|i: int|
            0 <= i < n && !is_folder(#[trigger] listing[i]) && listing[i].key is Some
                && listing[i].key->Some_0@ == (#[trigger] cur[k]).file_name by {
            if k < visible(prev).len() {
                assert(cur[k] == visible(prev)[k]);
                let i = choose|i: int|
                    0 <= i < p && !is_folder(#[trigger] listing[i]) && listing[i].key is Some
                        && listing[i].key->Some_0@ == (#[trigger] visible(prev)[k]).file_name;
                assert(0 <= i < n && !is_folder(listing[i]));
            } else {
                assert(!is_folder(listing[p as int]));
            }
        }
    }
}

/// Entries come only from named objects that are not folder markers: every
/// entry of a catalog carries the key of such an object of the listing.
pub proof fn lemma_entries_come_from_files(
    listing: Seq<BucketObject>,
    tag_sets: Seq<Seq<ObjectTag>>,
    term: Seq<char>,
    entries: Seq<EntryView>,
    k: int,
)
    requires
        catalog(listing, tag_sets, term) == Ok::<Seq<EntryView>, S3ObjectError>(entries),
        0 <= k < entries.len(),
    ensures
        exists|i: int|
            0 <= i < listing.len() && !is_folder(#[trigger] listing[i]) && listing[i].key is Some
                && listing[i].key->Some_0@ == entries[k].file_name,
{
    lemma_shown_entries_from_files(listing, tag_sets, term, listing.len());
    let shown = visible(scan(listing, tag_sets, term, listing.len())->Ok_0);
    assert(entries == shown);
    assert(0 <= k < shown.len());
    let i = choose|i: int|
        0 <= i < listing.len() && !is_folder(#[trigger] listing[i]) && listing[i].key is Some
            && listing[i].key->Some_0@ == (#[trigger] shown[k]).file_name;
    assert(!is_folder(listing[i]));
}

/// A prefix whose named objects all have valid tag sets scans to entries or
/// to `FileWithNoName`.
proof fn lemma_scan_no_tag_error(
    listing: Seq<BucketObject>,
    tag_sets: Seq<Seq<ObjectTag>>,
    term: Seq<char>,
    n: nat,
)
    requires
        n <= listing.len(),
        forall|j: int|
            0 <= j < n && !is_folder(listing[j]) && listing[j].key is Some ==> tag_string_of(
                #[trigger] tag_sets[j],
            ) is Ok,
    ensures
        scan(listing, tag_sets, term, n) is Ok || scan(listing, tag_sets, term, n) == Err::<
            Seq<EntryView>,
            S3ObjectError,
        >(S3ObjectError::FileWithNoName),
    decreases n,
{
    if n > 0 {
        lemma_scan_no_tag_error(listing, tag_sets, term, (n - 1) as nat);
        let j = n - 1;
        if !is_folder(listing[j]) && listing[j].key is Some {
            assert(tag_string_of(tag_sets[j]) is Ok);
        }
    }
}

/// A prefix whose objects are all folders or named with valid tag sets scans
/// to entries.
proof fn lemma_scan_valid_prefix(
    listing: Seq<BucketObject>,
    tag_sets: Seq<Seq<ObjectTag>>,
    term: Seq<char>,
    n: nat,
)
    requires
        n <= listing.len(),
        forall|j: int|
            0 <= j < n && !is_folder(#[trigger] listing[j]) ==> listing[j].key is Some
                && tag_string_of(tag_sets[j]) is Ok,
    ensures
        scan(listing, tag_sets, term, n) is Ok,
    decreases n,
{
    if n > 0 {
        lemma_scan_valid_prefix(listing, tag_sets, term, (n - 1) as nat);
        let j = n - 1;
        if !is_folder(listing[j]) {
            assert(listing[j].key is Some);
        }
    }
}

/// Folder markers never yield entries: a folder marker put anywhere into a
/// listing, whatever its tags, leaves the catalog as it was.
pub proof fn lemma_folder_markers_ignored(
    front: Seq<BucketObject>,
    front_tags: Seq<Seq<ObjectTag>>,
    folder: BucketObject,
    folder_tags: Seq<ObjectTag>,
    back: Seq<BucketObject>,
    back_tags: Seq<Seq<ObjectTag>>,
    term: Seq<char>,
)
    requires
        is_folder(folder),
        front_tags.len() == front.len(),
        back_tags.len() == back.len(),
    ensures
        catalog(front + seq![folder] + back, front_tags + seq![folder_tags] + back_tags, term)
            == catalog(front + back, front_tags + back_tags, term),
{
    let l1 = front + seq![folder] + back;
    assert(l1[front.len() as int] == folder);
    let t1 = front_tags + seq![folder_tags] + back_tags;
    let l2 = front + back;
    let t2 = front_tags + back_tags;
    let f = front.len();
    lemma_scan_same_prefix(l1, t1, l2, t2, term, f);
    lemma_scan_past_folder(l1, t1, l2, t2, term, f, back.len());
}

/// Past a folder marker at index `f` of `l1` that `l2` lacks, the two scans
/// stay equal.
proof fn lemma_scan_past_folder(
    l1: Seq<BucketObject>,
    t1: Seq<Seq<ObjectTag>>,
    l2: Seq<BucketObject>,
    t2: Seq<Seq<ObjectTag>>,
    term: Seq<char>,
    f: nat,
    k: nat,
)
    requires
        f < l1.len(),
        is_folder(l1[f as int]),
        l1.len() == l2.len() + 1,
        t1.len() == l1.len(),
        t2.len() == l2.len(),
        f + k <= l2.len(),
        scan(l1, t1, term, f) == scan(l2, t2, term, f),
        forall|j: int| f <= j < l2.len() ==> l1[j + 1] == l2[j] && t1[j + 1] == t2[j],
    ensures
        scan(l1, t1, term, f + 1 + k) == scan(l2, t2, term, f + k),
    decreases k,
{
    if k > 0 {
        lemma_scan_past_folder(l1, t1, l2, t2, term, f, (k - 1) as nat);
        assert(l1[(f + k) as int] == l2[(f + k - 1) as int]);
        assert(t1[(f + k) as int] == t2[(f + k - 1) as int]);
    }
}

/// An object without a name makes the whole catalog fail with
/// `FileWithNoName`, for every term, unless an earlier object broke the
/// tagging rule first.
pub proof fn lemma_unnamed_object_fails(
    listing: Seq<BucketObject>,
    tag_sets: Seq<Seq<ObjectTag>>,
    term: Seq<char>,
    i: int,
)
    requires
        tag_sets.len() == listing.len(),
        0 <= i < listing.len(),
        !is_folder(listing[i]),
        listing[i].key is None,
        forall|j: int|
            0 <= j < i && !is_folder(listing[j]) && listing[j].key is Some ==> tag_string_of(
                #[trigger] tag_sets[j],
            ) is Ok,
    ensures
        catalog(listing, tag_sets, term) == Err::<Seq<EntryView>, S3ObjectError>(
            S3ObjectError::FileWithNoName,
        ),
{
    lemma_scan_no_tag_error(listing, tag_sets, term, i as nat);
    assert(scan(listing, tag_sets, term, (i + 1) as nat) == Err::<Seq<EntryView>, S3ObjectError>(
        S3ObjectError::FileWithNoName,
    ));
    lemma_scan_error_stays(listing, tag_sets, term, (i + 1) as nat, listing.len());
}

/// An object with two or more tags keyed "tags" makes the whole catalog fail
/// with `MultipleTagsWithSameName`, for every term, unless an earlier object
/// broke a rule first.
pub proof fn lemma_repeated_tags_fail(
    listing: Seq<BucketObject>,
    tag_sets: Seq<Seq<ObjectTag>>,
    term: Seq<char>,
    i: int,
)
    requires
        tag_sets.len() == listing.len(),
        0 <= i < listing.len(),
        !is_folder(listing[i]),
        listing[i].key is Some,
        tag_sets[i].filter(|t: ObjectTag| t.key@ == tags_key()).len() >= 2,
        forall|j: int|
            0 <= j < i && !is_folder(#[trigger] listing[j]) ==> listing[j].key is Some
                && tag_string_of(tag_sets[j]) is Ok,
    ensures
        catalog(listing, tag_sets, term) == Err::<Seq<EntryView>, S3ObjectError>(
            S3ObjectError::MultipleTagsWithSameName,
        ),
{
    lemma_scan_valid_prefix(listing, tag_sets, term, i as nat);
    assert(scan(listing, tag_sets, term, (i + 1) as nat) == Err::<Seq<EntryView>, S3ObjectError>(
        S3ObjectError::MultipleTagsWithSameName,
    ));
    lemma_scan_error_stays(listing, tag_sets, term, (i + 1) as nat, listing.len());
}

/// Every entry of a catalog matches the search term: entries that do not
/// match are left out.
pub proof fn lemma_catalog_entries_match(
    listing: Seq<BucketObject>,
    tag_sets: Seq<Seq<ObjectTag>>,
    term: Seq<char>,
)
    requires
        catalog(listing, tag_sets, term) is Ok,
    ensures
        forall|k: int|
            0 <= k < catalog(listing, tag_sets, term)->Ok_0.len() ==> matches_spec(
                (#[trigger] catalog(listing, tag_sets, term)->Ok_0[k]).file_name,
                catalog(listing, tag_sets, term)->Ok_0[k].tags,
                term,
            ),
{
    lemma_shown_entries_match(listing, tag_sets, term, listing.len());
}

/// The tag sets recorded for folder markers do not matter: two runs over one
/// listing whose tag sets agree on every other object give the same catalog.
pub proof fn lemma_folder_tag_sets_ignored(
    listing: Seq<BucketObject>,
    t1: Seq<Seq<ObjectTag>>,
    t2: Seq<Seq<ObjectTag>>,
    term: Seq<char>,
)
    requires
        t1.len() == listing.len(),
        t2.len() == listing.len(),
        forall|i: int| 0 <= i < listing.len() && !is_folder(#[trigger] listing[i]) ==> t1[i] == t2[i],
    ensures
        catalog(listing, t1, term) == catalog(listing, t2, term),
{
    lemma_scan_ignores_folder_tags(listing, t1, t2, term, listing.len());
}

proof fn lemma_scan_ignores_folder_tags(
    listing: Seq<BucketObject>,
    t1: Seq<Seq<ObjectTag>>,
    t2: Seq<Seq<ObjectTag>>,
    term: Seq<char>,
    n: nat,
)
    requires
        n <= listing.len(),
        forall|i: int| 0 <= i < listing.len() && !is_folder(#[trigger] listing[i]) ==> t1[i] == t2[i],
    ensures
        scan(listing, t1, term, n) == scan(listing, t2, term, n),
    decreases n,
{
    if n > 0 {
        lemma_scan_ignores_folder_tags(listing, t1, t2, term, (n - 1) as nat);
        let j = n - 1;
        if !is_folder(listing[j]) {
            assert(t1[j] == t2[j]);
        }
    }
}

/// Two catalogs of an unchanged bucket (the same listing and the same tag
/// sets) hold the same file names and tag strings in the same order; only
/// their access URLs may differ.
pub proof fn lemma_catalog_repeatable(
    listing: Seq<BucketObject>,
    tag_sets: Seq<Seq<ObjectTag>>,
    term: Seq<char>,
    first: BucketContents,
    second: BucketContents,
)
    requires
        catalog(listing, tag_sets, term) == Ok::<Seq<EntryView>, S3ObjectError>(first@),
        catalog(listing, tag_sets, term) == Ok::<Seq<EntryView>, S3ObjectError>(second@),
    ensures
        first.data@.len() == second.data@.len(),
        forall|k: int|
            0 <= k < first.data@.len() ==> (#[trigger] first.data@[k]).file_name@
                == second.data@[k].file_name@ && first.data@[k].tags@ == second.data@[k].tags@,
{
    assert(first@.len() == first.data@.len());
    assert(second@.len() == second.data@.len());
    assert forall|k: int| 0 <= k < first.data@.len() implies (#[trigger] first.data@[k]).file_name@
        == second.data@[k].file_name@ && first.data@[k].tags@ == second.data@[k].tags@ by {
        assert(first@[k] == first.data@[k]@);
        assert(second@[k] == second.data@[k]@);
    }
}

/// An object whose tag set is the single tag `tags = tag_string`, as an upload
/// writes it, shows up in a catalog under any term it matches, with its name
/// and tag string.
pub proof fn lemma_uploaded_object_listed(
    listing: Seq<BucketObject>,
    tag_sets: Seq<Seq<ObjectTag>>,
    term: Seq<char>,
    i: int,
    file_name: Seq<char>,
    tag_string: Seq<char>,
)
    requires
        tag_sets.len() == listing.len(),
        0 <= i < listing.len(),
        !is_folder(listing[i]),
        listing[i].key is Some,
        listing[i].key->Some_0@ == file_name,
        tag_sets[i].len() == 1,
        tag_sets[i][0].key@ == tags_key(),
        tag_sets[i][0].value@ == tag_string,
        matches_spec(file_name, tag_string, term),
        catalog(listing, tag_sets, term) is Ok,
    ensures
        exists|k: int|
            0 <= k < catalog(listing, tag_sets, term)->Ok_0.len() && (#[trigger] catalog(
                listing,
                tag_sets,
                term,
            )->Ok_0[k]).file_name == file_name && catalog(listing, tag_sets, term)->Ok_0[k].tags
                == tag_string,
{
    let n = listing.len();
    let tags = tag_sets[i];
    assert(tags =~= seq![tags[0]]);
    assert(seq![tags[0]] =~= Seq::<ObjectTag>::empty().push(tags[0]));
    crate::catalog::lemma_filter_push(Seq::<ObjectTag>::empty(), tags[0], |t: ObjectTag| t.key@ == tags_key());
    assert(Seq::<ObjectTag>::empty().filter(|t: ObjectTag| t.key@ == tags_key()) =~= Seq::<ObjectTag>::empty())
        by {
        reveal(Seq::filter);
    }
    assert(tag_string_of(tags) == Ok::<Seq<char>, S3ObjectError>(tag_string));
    lemma_scan_ok_extends(listing, tag_sets, term, (i + 1) as nat, n);
    lemma_scan_ok_extends(listing, tag_sets, term, i as nat, (i + 1) as nat);
    let full = scan(listing, tag_sets, term, n)->Ok_0;
    let upto = scan(listing, tag_sets, term, (i + 1) as nat)->Ok_0;
    let before = scan(listing, tag_sets, term, i as nat)->Ok_0;
    let entry = upto[upto.len() - 1];
    assert(upto == before.push(entry_of(listing[i], tags, term)->Ok_0));
    assert(full[upto.len() - 1] == upto.subrange(0, upto.len() as int)[upto.len() - 1]);
    assert(!entry.hidden);
    broadcast use vstd::seq_lib::group_filter_ensures;

    let vis = visible(full);
    assert(vis.contains(entry));
    let k = choose|k: int| 0 <= k < vis.len() && vis[k] == entry;
    assert(catalog(listing, tag_sets, term)->Ok_0[k] == entry);
}

} // verus!
