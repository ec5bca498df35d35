//! The body of a `multipart/form-data` upload: text fields, then one file.

use vstd::prelude::*;
use crate::chars::{chars_of, string_of};
use crate::fmt::push_all;
use crate::pow::utf8;

verus! {

/// The text of one form field part: boundary line, its disposition, a blank
/// line, the value and a line end.
pub open spec fn field_part(boundary: Seq<char>, name: Seq<char>, value: Seq<char>) -> Seq<char> {
    "--"@ + boundary + "\r\nContent-Disposition: form-data; name=\""@ + name + "\"\r\n\r\n"@ + value
        + "\r\n"@
}

/// The head of the file part: boundary line, its disposition with the
/// file name, the PDF content type and a blank line.
pub open spec fn file_head(boundary: Seq<char>, field: Seq<char>, file_name: Seq<char>) -> Seq<char> {
    "--"@ + boundary + "\r\nContent-Disposition: form-data; name=\""@ + field + "\"; filename=\""@
        + file_name + "\"\r\nContent-Type: application/pdf\r\n\r\n"@
}

/// The closing delimiter after the file's bytes.
pub open spec fn closing(boundary: Seq<char>) -> Seq<char> {
    "\r\n--"@ + boundary + "--\r\n"@
}

/// The UTF-8 bytes of the field parts, in order.
pub open spec fn field_parts(boundary: Seq<char>, fields: Seq<(Seq<char>, Seq<char>)>) -> Seq<u8>
    decreases fields.len(),
{
    if fields.len() == 0 {
        Seq::empty()
    } else {
        field_parts(boundary, fields.drop_last()) + utf8(
            field_part(boundary, fields.last().0, fields.last().1),
        )
    }
}

/// A whole upload body: the field parts, the file part and the closing
/// delimiter.
pub open spec fn multipart_layout(
    boundary: Seq<char>,
    fields: Seq<(Seq<char>, Seq<char>)>,
    file_field: Seq<char>,
    file_name: Seq<char>,
    file_bytes: Seq<u8>,
) -> Seq<u8> {
    field_parts(boundary, fields) + utf8(file_head(boundary, file_field, file_name)) + file_bytes
        + utf8(closing(boundary))
}

/// The text of a pair of borrowed strings.
pub open spec fn pair_view(f: (&str, &str)) -> (Seq<char>, Seq<char>) {
    (f.0@, f.1@)
}

/// Appends the UTF-8 bytes of `text`.
fn push_utf8(out: &mut Vec<u8>, text: &Vec<char>)
    ensures
        final(out)@ == old(out)@ + utf8(text@),
{
    let s = string_of(text.as_slice());
    out.extend_from_slice(s.as_str().as_bytes());
}

/// Appends the characters of `s`.
fn push_str(out: &mut Vec<char>, s: &str)
    ensures
        final(out)@ == old(out)@ + s@,
{
    let v = chars_of(s);
    push_all(out, v.as_slice());
}

/// The body of an upload with boundary `boundary`: one part per text
/// field, in order, then the file part holding `file_bytes` as a PDF named
/// `file_name`, then the closing delimiter.
pub fn multipart_body(
    boundary: &str,
    fields: &[(&str, &str)],
    file_field: &str,
    file_name: &str,
    file_bytes: &[u8],
) -> (b: Vec<u8>)
    ensures
        b@ == multipart_layout(
            boundary@,
            fields@.map_values(|f: (&str, &str)| pair_view(f)),
            file_field@,
            file_name@,
            file_bytes@,
        ),
{
    let ghost views = fields@.map_values(|f: (&str, &str)| pair_view(f));
    let mut body: Vec<u8> = Vec::new();
    for i in 0..fields.len()
        invariant
            views == fields@.map_values(|f: (&str, &str)| pair_view(f)),
            body@ == field_parts(boundary@, views.take(i as int)),
    {
        let (name, value) = fields[i];
        let mut part: Vec<char> = Vec::new();
        push_str(&mut part, "--");
        push_str(&mut part, boundary);
        push_str(&mut part, "\r\nContent-Disposition: form-data; name=\"");
        push_str(&mut part, name);
        push_str(&mut part, "\"\r\n\r\n");
        push_str(&mut part, value);
        push_str(&mut part, "\r\n");
        assert(part@ =~= field_part(boundary@, name@, value@));
        push_utf8(&mut body, &part);
        assert(views.take(i + 1).drop_last() =~= views.take(i as int));
        assert(views.take(i + 1).last() == (name@, value@));
    }
    assert(views.take(fields@.len() as int) =~= views);
    let mut head: Vec<char> = Vec::new();
    push_str(&mut head, "--");
    push_str(&mut head, boundary);
    push_str(&mut head, "\r\nContent-Disposition: form-data; name=\"");
    push_str(&mut head, file_field);
    push_str(&mut head, "\"; filename=\"");
    push_str(&mut head, file_name);
    push_str(&mut head, "\"\r\nContent-Type: application/pdf\r\n\r\n");
    assert(head@ =~= file_head(boundary@, file_field@, file_name@));
    push_utf8(&mut body, &head);
    body.extend_from_slice(file_bytes);
    let mut tail: Vec<char> = Vec::new();
    push_str(&mut tail, "\r\n--");
    push_str(&mut tail, boundary);
    push_str(&mut tail, "--\r\n");
    assert(tail@ =~= closing(boundary@));
    push_utf8(&mut body, &tail);
    body
}

/// The `content-type` header of an upload body with boundary `boundary`.
pub fn multipart_content_type(boundary: &str) -> (r: String)
    ensures
        r@ == "multipart/form-data; boundary="@ + boundary@,
{
    let mut v: Vec<char> = Vec::new();
    push_str(&mut v, "multipart/form-data; boundary=");
    push_str(&mut v, boundary);
    string_of(v.as_slice())
}

/// The text fields of an article upload: the given title and tags, with a
/// fixed summary, first version number and note.
pub fn article_fields<'a>(title: &'a str, tags: &'a str) -> (v: Vec<(&'a str, &'a str)>)
    ensures
        v@.map_values(|f: (&str, &str)| pair_view(f)) == seq![
            ("title"@, title@),
            ("summary"@, "summary"@),
            ("tags"@, tags@),
            ("version"@, "1.0.0"@),
            ("note"@, "note"@),
        ],
{
    let v: Vec<(&'a str, &'a str)> = vec![
        ("title", title),
        ("summary", "summary"),
        ("tags", tags),
        ("version", "1.0.0"),
        ("note", "note"),
    ];
    assert(v@.map_values(|f: (&str, &str)| pair_view(f)) =~= seq![
        ("title"@, title@),
        ("summary"@, "summary"@),
        ("tags"@, tags@),
        ("version"@, "1.0.0"@),
        ("note"@, "note"@),
    ]);
    v
}

} // verus!
