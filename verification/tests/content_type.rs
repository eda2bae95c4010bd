use ferris_serve::content_type::{file_extension, get_content_type};

#[test]
fn html_is_text_html() {
    assert_eq!(get_content_type(b"public/index.html"), "text/html");
}

#[test]
fn css_is_text_css() {
    assert_eq!(get_content_type(b"public/style.css"), "text/css");
}

#[test]
fn js_is_text_javascript() {
    assert_eq!(get_content_type(b"public/app.js"), "text/javascript");
}

#[test]
fn png_is_image_png() {
    assert_eq!(get_content_type(b"public/logo.png"), "image/png");
}

#[test]
fn jpg_and_jpeg_are_image_jpeg() {
    assert_eq!(get_content_type(b"public/photo.jpg"), "image/jpeg");
    assert_eq!(get_content_type(b"public/photo.jpeg"), "image/jpeg");
}

#[test]
fn gif_is_image_gif() {
    assert_eq!(get_content_type(b"public/anim.gif"), "image/gif");
}

#[test]
fn an_unknown_extension_is_plain_text() {
    assert_eq!(get_content_type(b"public/notes.txt"), "text/plain");
    assert_eq!(get_content_type(b"public/archive.tar.gz"), "text/plain");
    assert_eq!(get_content_type(b"public/page.htm"), "text/plain");
    assert_eq!(get_content_type(b"public/page.htmlx"), "text/plain");
}

#[test]
fn a_missing_extension_is_plain_text() {
    assert_eq!(get_content_type(b"public/README"), "text/plain");
    assert_eq!(get_content_type(b""), "text/plain");
    assert_eq!(get_content_type(b"public/"), "text/plain");
    assert_eq!(get_content_type(b"html"), "text/plain");
}

#[test]
fn an_empty_extension_is_plain_text() {
    assert_eq!(get_content_type(b"public/name."), "text/plain");
    assert_eq!(file_extension(b"public/name."), Some(&b""[..]));
}

#[test]
fn extensions_are_matched_in_lower_case_only() {
    assert_eq!(get_content_type(b"public/INDEX.HTML"), "text/plain");
    assert_eq!(get_content_type(b"public/logo.Png"), "text/plain");
}

#[test]
fn only_the_last_extension_counts() {
    assert_eq!(get_content_type(b"public/page.html.png"), "image/png");
    assert_eq!(get_content_type(b"public/logo.png.html"), "text/html");
}

#[test]
fn a_dot_in_a_directory_name_is_no_extension() {
    assert_eq!(get_content_type(b"site.html/README"), "text/plain");
    assert_eq!(file_extension(b"site.html/README"), None);
    assert_eq!(get_content_type(b"site.d/logo.gif"), "image/gif");
}

#[test]
fn a_hidden_file_has_no_extension() {
    assert_eq!(file_extension(b".html"), None);
    assert_eq!(get_content_type(b".html"), "text/plain");
    assert_eq!(file_extension(b"public/.css"), None);
    assert_eq!(get_content_type(b"public/.css"), "text/plain");
}

#[test]
fn a_hidden_file_with_a_second_dot_has_an_extension() {
    assert_eq!(file_extension(b"public/.hidden.css"), Some(&b"css"[..]));
    assert_eq!(get_content_type(b"public/.hidden.css"), "text/css");
    assert_eq!(file_extension(b"..js"), Some(&b"js"[..]));
}

#[test]
fn the_extension_is_what_follows_the_last_dot() {
    assert_eq!(file_extension(b"public/a.b.c"), Some(&b"c"[..]));
    assert_eq!(file_extension(b"a.jpeg"), Some(&b"jpeg"[..]));
    assert_eq!(file_extension(b"public/dir/"), None);
    assert_eq!(file_extension(b"public/a.html/"), None);
    assert_eq!(file_extension(b"noext"), None);
}
