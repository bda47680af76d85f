//! Uploads: checking the request, reading the multipart form, and the tag set
//! written with a new object.
use vstd::prelude::*;
use vstd::utf8::{decode_utf8, valid_utf8};
use crate::catalog::{tags_key, ObjectTag};
use multipart::server::Multipart;

verus! {

/// Why an upload request is turned away.
#[derive(Clone, Copy, Debug, PartialEq, Eq, Structural)]
pub enum UploadError {
    /// The content type is not `multipart/form-data`.
    NotFormData,
    /// The content type has no `boundary` parameter.
    MissingBoundary,
    /// The `fileName` or `tags` part is not valid UTF-8.
    FieldNotUtf8,
    /// The body is not a well-formed multipart stream for its boundary.
    MalformedBody,
}

/// The fields of an upload form.
pub struct UploadForm {
    pub file_name: String,
    pub tags: String,
    pub file: Vec<u8>,
}

pub open spec fn boundary_param() -> Seq<char> {
    "boundary"@
}

pub open spec fn file_name_field() -> Seq<char> {
    "fileName"@
}

pub open spec fn tags_field() -> Seq<char> {
    "tags"@
}

pub open spec fn file_field() -> Seq<char> {
    "file"@
}

/// Index of the first parameter named `name`, if any.
pub open spec fn first_param(params: Seq<(String, String)>, name: Seq<char>) -> Option<int>
    decreases params.len(),
{
    if params.len() == 0 {
        None
    } else if params[0].0@ == name {
        Some(0)
    } else {
        match first_param(params.subrange(1, params.len() as int), name) {
            Some(i) => Some(i + 1),
            None => None,
        }
    }
}

fn same_text(a: &String, b: &str) -> (r: bool)
    ensures
        r == (a@ == b@),
{
    let b: String = b.to_owned();
    *a == b
}

/// The multipart boundary of an upload request whose content type is form
/// data (`is_form_data`) with parameters `params`: the value of its first
/// `boundary` parameter.
pub fn multipart_boundary(is_form_data: bool, params: &Vec<(String, String)>) -> (r: Result<
    String,
    UploadError,
>)
    ensures
        !is_form_data ==> r == Err::<String, UploadError>(UploadError::NotFormData),
        is_form_data ==> match first_param(params@, boundary_param()) {
            None => r == Err::<String, UploadError>(UploadError::MissingBoundary),
            Some(i) => r is Ok && r->Ok_0@ == params@[i].1@,
        },
{
    if !is_form_data {
        return Err(UploadError::NotFormData);
    }
    let mut i: usize = 0;
    assert(params@.subrange(0, params@.len() as int) =~= params@);
    while i < params.len()
        invariant
            is_form_data,
            i <= params@.len(),
            first_param(params@, boundary_param()) == (match first_param(
                params@.subrange(i as int, params@.len() as int),
                boundary_param(),
            ) {
                Some(j) => Some(j + i),
                None => None::<int>,
            }),
        decreases params@.len() - i,
    {
        let ghost rest = params@.subrange(i as int, params@.len() as int);
        assert(rest.subrange(1, rest.len() as int) =~= params@.subrange(i + 1, params@.len() as int));
        assert(rest[0] == params@[i as int]);
        if same_text(&params[i].0, "boundary") {
            assert(first_param(rest, boundary_param()) == Some(0int));
            return Ok(params[i].1.clone());
        }
        i = i + 1;
    }
    assert(params@.subrange(i as int, params@.len() as int) =~= Seq::<(String, String)>::empty());
    Err(UploadError::MissingBoundary)
}

/// The bytes of the last part named `name`, if any.
pub open spec fn last_part(parts: Seq<(Seq<char>, Seq<u8>)>, name: Seq<char>) -> Option<Seq<u8>>
    decreases parts.len(),
{
    if parts.len() == 0 {
        None
    } else if parts.last().0 == name {
        Some(parts.last().1)
    } else {
        last_part(parts.drop_last(), name)
    }
}

/// Every `fileName` and `tags` part is valid UTF-8.
pub open spec fn text_parts_valid(parts: Seq<(Seq<char>, Seq<u8>)>) -> bool
    decreases parts.len(),
{
    if parts.len() == 0 {
        true
    } else {
        &&& (parts.last().0 == file_name_field() || parts.last().0 == tags_field()) ==> valid_utf8(
            parts.last().1,
        )
        &&& text_parts_valid(parts.drop_last())
    }
}

/// The (name, bytes) views of form parts.
pub open spec fn part_views(parts: Seq<(String, Vec<u8>)>) -> Seq<(Seq<char>, Seq<u8>)> {
    parts.map_values(|p: (String, Vec<u8>)| (p.0@, p.1@))
}

/// A text field: the decoded last part, or empty when there is none.
pub open spec fn text_field(bytes: Option<Seq<u8>>) -> Seq<char> {
    match bytes {
        Some(b) => decode_utf8(b),
        None => Seq::empty(),
    }
}

pub open spec fn bytes_field(bytes: Option<Seq<u8>>) -> Seq<u8> {
    match bytes {
        Some(b) => b,
        None => Seq::empty(),
    }
}

/// Relies on `String::from_utf8`: it succeeds exactly on valid UTF-8 and then
/// holds the decoded characters.
#[verifier::external_body]
fn utf8_to_string(bytes: Vec<u8>) -> (r: Option<String>)
    ensures
        r is Some <==> valid_utf8(bytes@),
        r is Some ==> r->Some_0@ == decode_utf8(bytes@),
{
    String::from_utf8(bytes).ok()
}

/// Reads an upload form from its parts, given as (name, bytes) in stream
/// order. For each field the last part of that name counts; a missing field
/// is empty; parts of other names are ignored.
pub fn read_upload_form(parts: Vec<(String, Vec<u8>)>) -> (r: Result<UploadForm, UploadError>)
    ensures
        match r {
            Ok(form) => {
                &&& text_parts_valid(part_views(parts@))
                &&& form.file_name@ == text_field(last_part(part_views(parts@), file_name_field()))
                &&& form.tags@ == text_field(last_part(part_views(parts@), tags_field()))
                &&& form.file@ == bytes_field(last_part(part_views(parts@), file_field()))
            },
            Err(e) => !text_parts_valid(part_views(parts@)) && e == UploadError::FieldNotUtf8,
        },
{
    let ghost all = part_views(parts@);
    let mut remaining = parts;
    let mut file_name: Option<String> = None;
    let mut tags: Option<String> = None;
    let mut file: Option<Vec<u8>> = None;
    while remaining.len() > 0
        invariant
            all == part_views(parts@),
            text_parts_valid(all) == text_parts_valid(part_views(remaining@)),
            match file_name {
                Some(v) => last_part(all, file_name_field()) is Some && v@ == decode_utf8(
                    last_part(all, file_name_field())->Some_0,
                ),
                None => last_part(all, file_name_field()) == last_part(part_views(remaining@), file_name_field()),
            },
            match tags {
                Some(v) => last_part(all, tags_field()) is Some && v@ == decode_utf8(
                    last_part(all, tags_field())->Some_0,
                ),
                None => last_part(all, tags_field()) == last_part(part_views(remaining@), tags_field()),
            },
            match file {
                Some(v) => last_part(all, file_field()) == Some(v@),
                None => last_part(all, file_field()) == last_part(part_views(remaining@), file_field()),
            },
        decreases remaining@.len(),
    {
        proof {
            reveal_strlit("fileName");
            reveal_strlit("tags");
            reveal_strlit("file");
        }
        assert(file_name_field() != file_field() && tags_field() != file_field() && tags_field()
            != file_name_field()) by {
            assert(file_name_field().len() != file_field().len());
            assert(tags_field()[0] != file_field()[0]);
            assert(tags_field().len() != file_name_field().len());
        }
        let ghost before = remaining@;
        let (name, data) = remaining.pop().unwrap();
        assert(before.drop_last() =~= remaining@);
        assert(before.last().0 == name && before.last().1 == data);
        assert(part_views(before).drop_last() =~= part_views(remaining@));
        assert(part_views(before).last() == (name@, data@));
        let is_name = same_text(&name, "fileName");
        let is_tags = same_text(&name, "tags");
        if is_name || is_tags {
            let text = match utf8_to_string(data) {
                Some(t) => t,
                None => {
                    return Err(UploadError::FieldNotUtf8);
                },
            };
            if is_name && file_name.is_none() {
                file_name = Some(text);
            } else if is_tags && tags.is_none() {
                tags = Some(text);
            }
        } else if same_text(&name, "file") && file.is_none() {
            file = Some(data);
        }
    }
    let file_name = match file_name {
        Some(v) => v,
        None => String::new(),
    };
    let tags = match tags {
        Some(v) => v,
        None => String::new(),
    };
    let file = match file {
        Some(v) => v,
        None => Vec::new(),
    };
    Ok(UploadForm { file_name, tags, file })
}

/// The parts of a multipart body with the given boundary, as (name, bytes)
/// in stream order, or none when the stream is malformed.
pub uninterp spec fn parts_of(body: Seq<u8>, boundary: Seq<char>) -> Option<Seq<(Seq<char>, Seq<u8>)>>;

/// Relies on multipart's `Multipart::with_body` and `read_entry` over an
/// in-memory body: the parts, or an error, depend on the body and the
/// boundary alone.
#[verifier::external_body]
fn split_multipart(body: Vec<u8>, boundary: &str) -> (r: Option<Vec<(String, Vec<u8>)>>)
    ensures
        match r {
            Some(v) => parts_of(body@, boundary@) == Some(part_views(v@)),
            None => parts_of(body@, boundary@) is None,
        },
{
    let mut form = Multipart::with_body(std::io::Cursor::new(body), boundary);
    let mut parts = Vec::new();
    loop {
        let mut entry = match form.read_entry() {
            Ok(Some(entry)) => entry,
            Ok(None) => return Some(parts),
            Err(_) => return None,
        };
        let mut bytes = Vec::new();
        std::io::Read::read_to_end(&mut entry.data, &mut bytes).ok()?;
        parts.push((entry.headers.name.to_string(), bytes));
    }
}

/// Reads an upload form from a multipart body with the given boundary.
pub fn read_upload_body(body: Vec<u8>, boundary: &str) -> (r: Result<UploadForm, UploadError>)
    ensures
        match parts_of(body@, boundary@) {
            None => r == Err::<UploadForm, UploadError>(UploadError::MalformedBody),
            Some(parts) => match r {
                Ok(form) => {
                    &&& text_parts_valid(parts)
                    &&& form.file_name@ == text_field(last_part(parts, file_name_field()))
                    &&& form.tags@ == text_field(last_part(parts, tags_field()))
                    &&& form.file@ == bytes_field(last_part(parts, file_field()))
                },
                Err(e) => !text_parts_valid(parts) && e == UploadError::FieldNotUtf8,
            },
        },
{
    match split_multipart(body, boundary) {
        None => Err(UploadError::MalformedBody),
        Some(parts) => read_upload_form(parts),
    }
}

/// The tag set written with an uploaded object: the single tag
/// `tags = tag_string`.
pub fn upload_tag_pairs(tag_string: String) -> (r: Vec<(String, String)>)
    ensures
        r@.len() == 1,
        r@[0].0@ == tags_key(),
        r@[0].1@ == tag_string@,
{
    let key: String = "tags".to_owned();
    proof {
        reveal_strlit("tags");
    }
    assert(key@ =~= tags_key());
    vec![(key, tag_string)]
}

/// The tags named by (key, value) pairs, in order.
pub fn tag_set_from_pairs(pairs: Vec<(String, String)>) -> (r: Vec<ObjectTag>)
    ensures
        r@.len() == pairs@.len(),
        forall|i: int|
            0 <= i < r@.len() ==> (#[trigger] r@[i]).key@ == pairs@[i].0@ && r@[i].value@
                == pairs@[i].1@,
{
    let mut tags: Vec<ObjectTag> = Vec::new();
    let mut i: usize = 0;
    while i < pairs.len()
        invariant
            i <= pairs@.len(),
            tags@.len() == i,
            forall|j: int|
                0 <= j < i ==> (#[trigger] tags@[j]).key@ == pairs@[j].0@ && tags@[j].value@
                    == pairs@[j].1@,
        decreases pairs@.len() - i,
    {
        let key = pairs[i].0.clone();
        let value = pairs[i].1.clone();
        tags.push(ObjectTag { key, value });
        i = i + 1;
    }
    tags
}

} // verus!
