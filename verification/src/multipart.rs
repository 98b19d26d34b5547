//! `multipart/form-data` recipe payloads: the fields the server takes from an
//! upload, how their texts become a recipe, and the body the client builds.

use vstd::prelude::*;
use crate::errors::{api_error, ApiError, ApiErrorView, STATUS_UNPROCESSABLE};
use crate::images::{image_jpeg, image_png, image_webp, jpg, octet_stream, png, webp};
use crate::json::{decode_string_list, json_decode_strings};
use crate::model::{Ingredient, IngredientView, RecipeInput, RecipeInputView};
use crate::text::{after_last_dot, concat, extension_of, is_blank, is_blank_seq, str_eq};

verus! {

// ---------------------------------------------------------------------------
// Server side
// ---------------------------------------------------------------------------

/// What a form field of a recipe upload carries.
#[derive(Clone, Copy, PartialEq, Eq, Structural)]
pub enum FieldKind {
    Name,
    Sections,
    Ingredients,
    Instructions,
    Image,
    Other,
}

pub open spec fn kind_of(name: Seq<char>) -> FieldKind {
    if name == "name"@ {
        FieldKind::Name
    } else if name == "sections"@ {
        FieldKind::Sections
    } else if name == "ingredients"@ {
        FieldKind::Ingredients
    } else if name == "instructions"@ {
        FieldKind::Instructions
    } else if name == "image"@ {
        FieldKind::Image
    } else {
        FieldKind::Other
    }
}

/// The kind of a field by its name; a field without a name is ignored.
pub fn field_kind(name: Option<&str>) -> (r: FieldKind)
    ensures
        r == match name {
            Some(n) => kind_of(n@),
            None => FieldKind::Other,
        },
{
    match name {
        Some(n) => {
            if str_eq(n, "name") {
                FieldKind::Name
            } else if str_eq(n, "sections") {
                FieldKind::Sections
            } else if str_eq(n, "ingredients") {
                FieldKind::Ingredients
            } else if str_eq(n, "instructions") {
                FieldKind::Instructions
            } else if str_eq(n, "image") {
                FieldKind::Image
            } else {
                FieldKind::Other
            }
        },
        None => FieldKind::Other,
    }
}

/// The text fields of an upload, empty until received.
pub struct MultipartText {
    pub name: String,
    pub sections: String,
    pub ingredients: String,
    pub instructions: String,
}

impl MultipartText {
    pub fn new() -> (r: MultipartText)
        ensures
            r.name@.len() == 0,
            r.sections@.len() == 0,
            r.ingredients@.len() == 0,
            r.instructions@.len() == 0,
    {
        MultipartText { name: String::new(), sections: String::new(), ingredients: String::new(), instructions: String::new() }
    }

    /// Keep the text of a field; a later field of the same name replaces an
    /// earlier one, and images and unknown fields leave the texts alone.
    pub fn record(&mut self, kind: FieldKind, text: String)
        ensures
            final(self).name@ == if kind == FieldKind::Name { text@ } else { old(self).name@ },
            final(self).sections@ == if kind == FieldKind::Sections { text@ } else { old(self).sections@ },
            final(self).ingredients@ == if kind == FieldKind::Ingredients { text@ } else { old(self).ingredients@ },
            final(self).instructions@ == if kind == FieldKind::Instructions { text@ } else { old(self).instructions@ },
    {
        match kind {
            FieldKind::Name => self.name = text,
            FieldKind::Sections => self.sections = text,
            FieldKind::Ingredients => self.ingredients = text,
            FieldKind::Instructions => self.instructions = text,
            FieldKind::Image => {},
            FieldKind::Other => {},
        }
    }
}

/// A JSON list field: blank is an empty list; otherwise the parsed list, or
/// `422` with the given prefix and the parser's message.
pub open spec fn list_field(text: Seq<char>, prefix: Seq<char>) -> Result<Seq<Seq<char>>, ApiErrorView> {
    if is_blank_seq(text) {
        Ok(Seq::empty())
    } else {
        match json_decode_strings(text) {
            Ok(l) => Ok(l),
            Err(e) => Err(api_error(STATUS_UNPROCESSABLE, prefix + e)),
        }
    }
}

/// The recipe an upload's texts make: sections, ingredients and instructions
/// are checked in that order; `parsed` is the ingredients text parsed as a
/// JSON list of ingredients (or the parser's message), used only when the
/// text is not blank.
pub open spec fn upload_input(
    name: Seq<char>,
    sections: Seq<char>,
    ingredients: Seq<char>,
    instructions: Seq<char>,
    parsed: Result<Seq<IngredientView>, Seq<char>>,
) -> Result<RecipeInputView, ApiErrorView> {
    match list_field(sections, "bad sections JSON: "@) {
        Err(e) => Err(e),
        Ok(secs) => {
            let ings: Result<Seq<IngredientView>, ApiErrorView> = if is_blank_seq(ingredients) {
                Ok(Seq::empty())
            } else {
                match parsed {
                    Ok(v) => Ok(v),
                    Err(e) => Err(api_error(STATUS_UNPROCESSABLE, "bad ingredients JSON: "@ + e)),
                }
            };
            match ings {
                Err(e) => Err(e),
                Ok(ings) => match list_field(instructions, "bad instructions JSON: "@) {
                    Err(e) => Err(e),
                    Ok(steps) => Ok(RecipeInputView { name, sections: secs, ingredients: ings, instructions: steps }),
                },
            }
        },
    }
}

/// An upload whose sections and instructions texts are JSON texts that parse
/// as two lists and are not blank (as `encode_string_list` gives them), and
/// whose ingredients text is not blank and is parsed as `ingredients`, is read
/// as the recipe of that name and those lists: the texts `build_multipart`
/// puts into a body give back what they were made of.
pub proof fn law_upload_round_trip(
    name: Seq<char>,
    sections: Seq<Seq<char>>,
    sections_json: Seq<char>,
    ingredients: Seq<IngredientView>,
    ingredients_json: Seq<char>,
    instructions: Seq<Seq<char>>,
    instructions_json: Seq<char>,
)
    requires
        json_decode_strings(sections_json) == Ok::<Seq<Seq<char>>, Seq<char>>(sections),
        !is_blank_seq(sections_json),
        !is_blank_seq(ingredients_json),
        json_decode_strings(instructions_json) == Ok::<Seq<Seq<char>>, Seq<char>>(instructions),
        !is_blank_seq(instructions_json),
    ensures
        upload_input(name, sections_json, ingredients_json, instructions_json, Ok(ingredients))
            == Ok::<RecipeInputView, ApiErrorView>(RecipeInputView { name, sections, ingredients, instructions }),
{
}

fn decode_list_field(text: &str, prefix: &str) -> (r: Result<Vec<String>, ApiError>)
    ensures
        match (r, list_field(text@, prefix@)) {
            (Ok(v), Ok(l)) => v.deep_view() == l,
            (Err(e), Err(ev)) => e.deep_view() == ev,
            _ => false,
        },
{
    if is_blank(text) {
        let v: Vec<String> = Vec::new();
        proof {
            assert(v.deep_view() =~= Seq::<Seq<char>>::empty());
        }
        Ok(v)
    } else {
        match decode_string_list(text) {
            Ok(v) => Ok(v),
            Err(e) => Err(ApiError::client(STATUS_UNPROCESSABLE, concat(prefix, e.as_str()))),
        }
    }
}

/// Turn the texts of an upload into a recipe.
pub fn upload_recipe_input(
    fields: MultipartText,
    parsed_ingredients: Result<Vec<Ingredient>, String>,
) -> (r: Result<RecipeInput, ApiError>)
    ensures
        match (
            r,
            upload_input(
                fields.name@,
                fields.sections@,
                fields.ingredients@,
                fields.instructions@,
                match parsed_ingredients {
                    Ok(v) => Ok(v.deep_view()),
                    Err(e) => Err(e@),
                },
            ),
        ) {
            (Ok(i), Ok(iv)) => i.deep_view() == iv,
            (Err(e), Err(ev)) => e.deep_view() == ev,
            _ => false,
        },
{
    let sections = decode_list_field(fields.sections.as_str(), "bad sections JSON: ")?;
    let ingredients = if is_blank(fields.ingredients.as_str()) {
        let v: Vec<Ingredient> = Vec::new();
        proof {
            assert(v.deep_view() =~= Seq::<IngredientView>::empty());
        }
        v
    } else {
        match parsed_ingredients {
            Ok(v) => v,
            Err(e) => {
                return Err(ApiError::client(STATUS_UNPROCESSABLE, concat("bad ingredients JSON: ", e.as_str())));
            },
        }
    };
    let instructions = decode_list_field(fields.instructions.as_str(), "bad instructions JSON: ")?;
    Ok(RecipeInput { name: fields.name, sections, ingredients, instructions })
}

// ---------------------------------------------------------------------------
// Client side
// ---------------------------------------------------------------------------

/// One text field of the body.
pub open spec fn text_part(boundary: Seq<char>, field: Seq<char>, value: Seq<char>) -> Seq<char> {
    "--"@ + boundary + "\r\nContent-Disposition: form-data; name=\""@ + field + "\"\r\n\r\n"@ + value + "\r\n"@
}

/// The header of the photo field.
pub open spec fn file_header(boundary: Seq<char>, filename: Seq<char>, mime: Seq<char>) -> Seq<char> {
    "--"@ + boundary + "\r\nContent-Disposition: form-data; name=\"image\"; filename=\""@ + filename
        + "\"\r\nContent-Type: "@ + mime + "\r\n\r\n"@
}

/// The content type declared for an uploaded photo, by its file extension.
pub open spec fn upload_mime(filename: Seq<char>) -> Seq<char> {
    let ext = after_last_dot(filename);
    if ext == png() {
        image_png()
    } else if ext == jpg() || ext == seq!['j', 'p', 'e', 'g'] {
        image_jpeg()
    } else if ext == webp() {
        image_webp()
    } else {
        octet_stream()
    }
}

/// The body of a recipe upload: the four text fields, the photo if any, and
/// the closing boundary, UTF-8 encoded.
pub open spec fn multipart_body(
    boundary: Seq<char>,
    name: Seq<char>,
    sections: Seq<char>,
    ingredients: Seq<char>,
    instructions: Seq<char>,
    image: Option<(Seq<char>, Seq<u8>)>,
) -> Seq<u8> {
    vstd::utf8::encode_utf8(text_part(boundary, "name"@, name))
        + vstd::utf8::encode_utf8(text_part(boundary, "sections"@, sections))
        + vstd::utf8::encode_utf8(text_part(boundary, "ingredients"@, ingredients))
        + vstd::utf8::encode_utf8(text_part(boundary, "instructions"@, instructions))
        + match image {
            Some((filename, bytes)) => vstd::utf8::encode_utf8(file_header(boundary, filename, upload_mime(filename)))
                + bytes + vstd::utf8::encode_utf8("\r\n"@),
            None => Seq::empty(),
        }
        + vstd::utf8::encode_utf8("--"@ + boundary + "--\r\n"@)
}

/// The content type declared for an uploaded photo.
pub fn upload_content_type(filename: &str) -> (r: String)
    ensures
        r@ == upload_mime(filename@),
{
    let ext = extension_of(filename);
    let e = ext.as_str();
    proof {
        reveal_strlit("jpg");
        reveal_strlit("jpeg");
        reveal_strlit("png");
        reveal_strlit("webp");
        reveal_strlit("image/jpeg");
        reveal_strlit("image/png");
        reveal_strlit("image/webp");
        reveal_strlit("application/octet-stream");
        assert("jpg"@ =~= jpg());
        assert("jpeg"@ =~= seq!['j', 'p', 'e', 'g']);
        assert("png"@ =~= png());
        assert("webp"@ =~= webp());
        assert("image/jpeg"@ =~= image_jpeg());
        assert("image/png"@ =~= image_png());
        assert("image/webp"@ =~= image_webp());
        assert("application/octet-stream"@ =~= octet_stream());
    }
    let mime = if str_eq(e, "png") {
        "image/png"
    } else if str_eq(e, "jpg") || str_eq(e, "jpeg") {
        "image/jpeg"
    } else if str_eq(e, "webp") {
        "image/webp"
    } else {
        "application/octet-stream"
    };
    mime.to_owned()
}

fn append_bytes(body: &mut Vec<u8>, bytes: &[u8])
    ensures
        final(body)@ == old(body)@ + bytes@,
{
    let mut i: usize = 0;
    while i < bytes.len()
        invariant
            i <= bytes.len(),
            body@ == old(body)@ + bytes@.subrange(0, i as int),
        decreases bytes.len() - i,
    {
        body.push(bytes[i]);
        proof {
            assert(bytes@.subrange(0, i + 1) =~= bytes@.subrange(0, i as int).push(bytes@[i as int]));
        }
        i = i + 1;
    }
    proof {
        assert(bytes@.subrange(0, bytes@.len() as int) =~= bytes@);
    }
}

fn append_text(body: &mut Vec<u8>, text: &str)
    ensures
        final(body)@ == old(body)@ + vstd::utf8::encode_utf8(text@),
{
    append_bytes(body, text.as_bytes());
}

fn text_part_string(boundary: &str, field: &str, value: &str) -> (r: String)
    ensures
        r@ == text_part(boundary@, field@, value@),
{
    let mut s = concat("--", boundary);
    s.append("\r\nContent-Disposition: form-data; name=\"");
    s.append(field);
    s.append("\"\r\n\r\n");
    s.append(value);
    s.append("\r\n");
    s
}

/// Build a `multipart/form-data` upload by hand, with the given boundary:
/// the `Content-Type` header value and the body.
pub fn build_multipart(
    boundary: &str,
    name: &str,
    sections_json: &str,
    ingredients_json: &str,
    instructions_json: &str,
    image: Option<(&str, &[u8])>,
) -> (r: (String, Vec<u8>))
    ensures
        r.0@ == "multipart/form-data; boundary="@ + boundary@,
        r.1@ == multipart_body(
            boundary@,
            name@,
            sections_json@,
            ingredients_json@,
            instructions_json@,
            match image {
                Some((f, b)) => Some((f@, b@)),
                None => None,
            },
        ),
{
    let mut body: Vec<u8> = Vec::new();
    append_text(&mut body, text_part_string(boundary, "name", name).as_str());
    append_text(&mut body, text_part_string(boundary, "sections", sections_json).as_str());
    append_text(&mut body, text_part_string(boundary, "ingredients", ingredients_json).as_str());
    append_text(&mut body, text_part_string(boundary, "instructions", instructions_json).as_str());
    let ghost before_image = body@;
    match image {
        Some((filename, bytes)) => {
            let mime = upload_content_type(filename);
            let mut header = concat("--", boundary);
            header.append("\r\nContent-Disposition: form-data; name=\"image\"; filename=\"");
            header.append(filename);
            header.append("\"\r\nContent-Type: ");
            header.append(mime.as_str());
            header.append("\r\n\r\n");
            append_text(&mut body, header.as_str());
            append_bytes(&mut body, bytes);
            append_text(&mut body, "\r\n");
        },
        None => {},
    }
    let mut closing = concat("--", boundary);
    closing.append("--\r\n");
    append_text(&mut body, closing.as_str());
    let content_type = concat("multipart/form-data; boundary=", boundary);
    proof {
        let img = match image {
            Some((f, b)) => Some((f@, b@)),
            None => None,
        };
        assert(body@ =~= multipart_body(boundary@, name@, sections_json@, ingredients_json@, instructions_json@, img));
    }
    (content_type, body)
}

} // verus!
