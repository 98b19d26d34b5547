use bouedig::json::encode_string_list;
use bouedig::model::Ingredient;
use bouedig::multipart::{build_multipart, field_kind, upload_content_type, upload_recipe_input, FieldKind, MultipartText};

fn fields(name: &str, sections: &str, ingredients: &str, instructions: &str) -> MultipartText {
    let mut f = MultipartText::new();
    f.record(field_kind(Some("name")), name.to_owned());
    f.record(field_kind(Some("sections")), sections.to_owned());
    f.record(field_kind(Some("ingredients")), ingredients.to_owned());
    f.record(field_kind(Some("instructions")), instructions.to_owned());
    f
}

fn tomato() -> Ingredient {
    Ingredient { quantity: Some(1f64.to_bits()), unit: None, name: "tomato".to_owned(), prep: None, section: Some("Filling".to_owned()) }
}

#[test]
fn field_kinds_by_name() {
    assert!(matches!(field_kind(Some("name")), FieldKind::Name));
    assert!(matches!(field_kind(Some("image")), FieldKind::Image));
    assert!(matches!(field_kind(Some("notes")), FieldKind::Other));
    assert!(matches!(field_kind(None), FieldKind::Other));
    let mut f = MultipartText::new();
    f.record(FieldKind::Other, "ignored".to_owned());
    f.record(FieldKind::Image, "ignored".to_owned());
    assert_eq!((f.name.as_str(), f.sections.as_str(), f.ingredients.as_str(), f.instructions.as_str()), ("", "", "", ""));
}

#[test]
fn upload_fields_make_a_recipe() {
    let f = fields("Crêpe", "[\"Base\",\"Empty\",\"Filling\"]", "[{\"quantity\":1}]", "");
    let input = upload_recipe_input(f, Ok(vec![tomato()])).ok().unwrap();
    assert_eq!(input.name, "Crêpe");
    assert_eq!(input.sections, vec!["Base", "Empty", "Filling"]);
    assert_eq!(input.ingredients.len(), 1);
    assert_eq!(input.ingredients[0].name, "tomato");
    assert!(input.instructions.is_empty());
}

#[test]
fn blank_fields_are_empty_lists() {
    let input = upload_recipe_input(fields("X", "  ", " ", "[\"step one\",\"step two\"]"), Ok(vec![tomato()])).ok().unwrap();
    assert!(input.sections.is_empty());
    assert!(input.ingredients.is_empty());
    assert_eq!(input.instructions, vec!["step one", "step two"]);
}

#[test]
fn bad_json_fields_are_unprocessable() {
    let e = upload_recipe_input(fields("X", "[", "", ""), Ok(vec![])).err().unwrap();
    assert_eq!(e.status, 422);
    assert!(e.message.starts_with("bad sections JSON: "), "{}", e.message);
    let e = upload_recipe_input(fields("X", "", "[{]", ""), Err("expected value".to_owned())).err().unwrap();
    assert_eq!((e.status, e.message.as_str()), (422, "bad ingredients JSON: expected value"));
    assert!(e.json);
    let e = upload_recipe_input(fields("X", "", "", "{}"), Ok(vec![])).err().unwrap();
    assert_eq!(e.status, 422);
    assert!(e.message.starts_with("bad instructions JSON: "), "{}", e.message);
}

#[test]
fn photo_content_type_by_extension() {
    assert_eq!(upload_content_type("photo.png"), "image/png");
    assert_eq!(upload_content_type("IMG.jpeg"), "image/jpeg");
    assert_eq!(upload_content_type("a.jpg"), "image/jpeg");
    assert_eq!(upload_content_type("a.webp"), "image/webp");
    assert_eq!(upload_content_type("a.PNG"), "application/octet-stream");
}

#[test]
fn multipart_body_is_built_by_hand() {
    let (ct, body) = build_multipart("SecBNd", "Crêpe", "[\"Base\"]", "[]", "[\"Mix\"]", None);
    assert_eq!(ct, "multipart/form-data; boundary=SecBNd");
    let expected = "--SecBNd\r\nContent-Disposition: form-data; name=\"name\"\r\n\r\nCrêpe\r\n\
--SecBNd\r\nContent-Disposition: form-data; name=\"sections\"\r\n\r\n[\"Base\"]\r\n\
--SecBNd\r\nContent-Disposition: form-data; name=\"ingredients\"\r\n\r\n[]\r\n\
--SecBNd\r\nContent-Disposition: form-data; name=\"instructions\"\r\n\r\n[\"Mix\"]\r\n\
--SecBNd--\r\n";
    assert_eq!(String::from_utf8(body).unwrap(), expected);

    let (_, body) = build_multipart("B", "n", "", "", "", Some(("p.png", &[0u8, 255, 10][..])));
    let mut tail = b"--B\r\nContent-Disposition: form-data; name=\"image\"; filename=\"p.png\"\r\nContent-Type: image/png\r\n\r\n".to_vec();
    tail.extend_from_slice(&[0, 255, 10]);
    tail.extend_from_slice(b"\r\n--B--\r\n");
    assert!(body.ends_with(&tail));
}

#[test]
fn encoded_lists_come_back_from_an_upload() {
    let sections = vec!["Base".to_owned(), "Em\"pty".to_owned()];
    let instructions: Vec<String> = vec![];
    let sections_json = encode_string_list(&sections);
    let instructions_json = encode_string_list(&instructions);
    assert_eq!(sections_json, r#"["Base","Em\"pty"]"#);
    assert_eq!(instructions_json, "[]");
    let (_, body) = build_multipart("B", "Pie", &sections_json, "[{}]", &instructions_json, None);
    let body = String::from_utf8(body).unwrap();
    assert!(body.contains(&format!("name=\"sections\"\r\n\r\n{sections_json}\r\n")));
    let input = upload_recipe_input(fields("Pie", &sections_json, "[{}]", &instructions_json), Ok(vec![tomato()])).ok().unwrap();
    assert_eq!(input.name, "Pie");
    assert_eq!(input.sections, sections);
    assert_eq!(input.instructions, instructions);
    assert_eq!(input.ingredients.len(), 1);
}
