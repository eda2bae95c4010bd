use ferris_serve::handler::{
    dispatch, dispatch_confined, handle_request, handle_request_confined, read_failure_body, Load,
    Probe, Step,
};
use ferris_serve::request::Request;
use ferris_serve::response::{Response, Status};
use std::collections::HashMap;

/// Files by path, standing in for a directory on disk.
fn site(files: &[(&[u8], &[u8])]) -> HashMap<Vec<u8>, Vec<u8>> {
    files.iter().map(|(path, bytes)| (path.to_vec(), bytes.to_vec())).collect()
}

/// Carries out what a step asks for against `files`.
fn complete(files: &HashMap<Vec<u8>, Vec<u8>>, step: Step) -> Response {
    let load = match step {
        Step::Done(response) => return response,
        Step::Load(load) => load,
        Step::Probe(probe) => {
            let is_file = files.contains_key(&probe.target);
            probe.resolve(is_file)
        }
    };
    let contents = files.get(&load.source).cloned();
    load.finish(contents)
}

fn serve(files: &HashMap<Vec<u8>, Vec<u8>>, root: &[u8], buffer: &[u8]) -> Response {
    complete(files, handle_request(buffer, root))
}

fn serve_confined(files: &HashMap<Vec<u8>, Vec<u8>>, root: &[u8], buffer: &[u8]) -> Response {
    complete(files, handle_request_confined(buffer, root))
}

#[test]
fn get_root_serves_the_index_page() {
    let files = site(&[(b"public/index.html", b"<h1>Home</h1>")]);
    let response = serve(&files, b"public", b"GET / HTTP/1.1\r\n\r\n");
    assert_eq!(response.status, Status::Success);
    assert_eq!(response.status.code(), 200);
    assert_eq!(response.content_type, "text/html");
    assert_eq!(response.body, b"<h1>Home</h1>");
    assert_eq!(
        response.to_bytes(),
        b"HTTP/1.1 200 OK\r\nContent-Type: text/html\r\n\r\n<h1>Home</h1>"
    );
}

#[test]
fn get_of_a_missing_file_serves_the_not_found_page() {
    let files = site(&[
        (b"public/index.html", b"<h1>Home</h1>"),
        (b"public/404.html", b"<h1>Nothing here</h1>"),
    ]);
    let response = serve(&files, b"public", b"GET /foo.png HTTP/1.1\r\n\r\n");
    assert_eq!(response.status, Status::NotFound);
    assert_eq!(response.status.code(), 404);
    assert_eq!(response.content_type, "text/html");
    assert_eq!(response.body, b"<h1>Nothing here</h1>");
    assert_eq!(
        response.to_bytes(),
        b"HTTP/1.1 404 NOT FOUND\r\nContent-Type: text/html\r\n\r\n<h1>Nothing here</h1>"
    );
}

#[test]
fn get_root_serves_the_index_page_whatever_the_version() {
    let files = site(&[(b"www/index.html", b"index")]);
    for buffer in [&b"GET / HTTP/1.0\r\n"[..], b"GET / HTTP/2", b"GET /", b"  GET\t/\nX"] {
        let response = serve(&files, b"www", buffer);
        assert_eq!(response.status, Status::Success);
        assert_eq!(response.content_type, "text/html");
        assert_eq!(response.body, b"index");
    }
}

#[test]
fn get_of_a_file_serves_it_with_the_type_of_its_extension() {
    let files = site(&[
        (b"public/page.html", b"html"),
        (b"public/site.css", b"css"),
        (b"public/app.js", b"js"),
        (b"public/img/logo.png", b"png"),
        (b"public/img/a.jpg", b"jpg"),
        (b"public/img/b.jpeg", b"jpeg"),
        (b"public/img/c.gif", b"gif"),
        (b"public/notes.txt", b"txt"),
        (b"public/LICENSE", b"license"),
    ]);
    let cases: [(&[u8], &str, &[u8]); 9] = [
        (b"GET /page.html HTTP/1.1\r\n", "text/html", b"html"),
        (b"GET /site.css HTTP/1.1\r\n", "text/css", b"css"),
        (b"GET /app.js HTTP/1.1\r\n", "text/javascript", b"js"),
        (b"GET /img/logo.png HTTP/1.1\r\n", "image/png", b"png"),
        (b"GET /img/a.jpg HTTP/1.1\r\n", "image/jpeg", b"jpg"),
        (b"GET /img/b.jpeg HTTP/1.1\r\n", "image/jpeg", b"jpeg"),
        (b"GET /img/c.gif HTTP/1.1\r\n", "image/gif", b"gif"),
        (b"GET /notes.txt HTTP/1.1\r\n", "text/plain", b"txt"),
        (b"GET /LICENSE HTTP/1.1\r\n", "text/plain", b"license"),
    ];
    for (buffer, content_type, body) in cases {
        let response = serve(&files, b"public", buffer);
        assert_eq!(response.status, Status::Success);
        assert_eq!(response.content_type, content_type);
        assert_eq!(response.body, body);
    }
}

#[test]
fn the_index_page_by_name_is_an_ordinary_file() {
    let files = site(&[(b"public/index.html", b"<h1>Home</h1>")]);
    let response = serve(&files, b"public", b"GET /index.html HTTP/1.1\r\n");
    assert_eq!(response.status, Status::Success);
    assert_eq!(response.content_type, "text/html");
    assert_eq!(response.body, b"<h1>Home</h1>");
}

#[test]
fn any_other_method_is_a_bad_request() {
    let files = site(&[
        (b"public/index.html", b"<h1>Home</h1>"),
        (b"public/404.html", b"missing"),
        (b"public/400.html", b"never served"),
    ]);
    let buffers: [&[u8]; 8] = [
        b"POST / HTTP/1.1\r\n",
        b"HEAD /index.html HTTP/1.1\r\n",
        b"PUT /nothing HTTP/1.1\r\n",
        b"get / HTTP/1.1\r\n",
        b"GETS / HTTP/1.1\r\n",
        b"GE / HTTP/1.1\r\n",
        b"",
        b"\r\n\r\n",
    ];
    for buffer in buffers {
        let response = serve(&files, b"public", buffer);
        assert_eq!(response.status, Status::BadRequest);
        assert_eq!(response.status.code(), 400);
        assert_eq!(response.content_type, "text/html");
        assert_eq!(response.body, b"<h1>400 Bad Request</h1>");
    }
}

#[test]
fn a_bad_request_on_the_wire() {
    let response = serve(&HashMap::new(), b"public", b"DELETE /index.html HTTP/1.1\r\n");
    assert_eq!(
        response.to_bytes(),
        b"HTTP/1.1 400 BAD REQUEST\r\nContent-Type: text/html\r\n\r\n<h1>400 Bad Request</h1>"
    );
}

#[test]
fn a_written_file_comes_back_byte_for_byte() {
    let bytes: Vec<u8> = (0u8..=255).rev().collect();
    let mut files = site(&[(b"public/404.html", b"missing")]);
    let before = serve(&files, b"public", b"GET /data.bin HTTP/1.1\r\n");
    assert_eq!(before.status, Status::NotFound);
    files.insert(b"public/data.bin".to_vec(), bytes.clone());
    let after = serve(&files, b"public", b"GET /data.bin HTTP/1.1\r\n");
    assert_eq!(after.status, Status::Success);
    assert_eq!(after.content_type, "text/plain");
    assert_eq!(after.body, bytes);
    let wire = after.to_bytes();
    assert_eq!(&wire[wire.len() - bytes.len()..], &bytes[..]);
}

#[test]
fn an_unreadable_index_page_gives_a_note_with_status_200() {
    let response = serve(&HashMap::new(), b"public", b"GET / HTTP/1.1\r\n");
    assert_eq!(response.status, Status::Success);
    assert_eq!(response.content_type, "text/html");
    assert_eq!(response.body, b"Error reading file: public/index.html");
}

#[test]
fn an_unreadable_not_found_page_gives_a_note_with_status_404() {
    let response = serve(&HashMap::new(), b"public", b"GET /foo.png HTTP/1.1\r\n");
    assert_eq!(response.status, Status::NotFound);
    assert_eq!(response.content_type, "text/html");
    assert_eq!(response.body, b"Error reading file: public/404.html");
}

#[test]
fn a_file_that_vanishes_before_it_is_read_gives_a_note_with_status_200() {
    let probe = Probe { target: b"public/a.css".to_vec(), fallback: b"public/404.html".to_vec() };
    let response = probe.resolve(true).finish(None);
    assert_eq!(response.status, Status::Success);
    assert_eq!(response.content_type, "text/css");
    assert_eq!(response.body, b"Error reading file: public/a.css");
}

#[test]
fn the_note_of_a_failed_read_names_the_file() {
    assert_eq!(read_failure_body(b"public/index.html"), b"Error reading file: public/index.html");
    assert_eq!(read_failure_body(b""), b"Error reading file: ");
}

#[test]
fn get_without_a_path_probes_the_root_itself() {
    let request = Request { method: b"GET", path: b"", version: b"" };
    assert_eq!(
        dispatch(&request, b"public"),
        Step::Probe(Probe {
            target: b"public/".to_vec(),
            fallback: b"public/404.html".to_vec()
        })
    );
    let files = site(&[(b"public/404.html", b"missing")]);
    let response = serve(&files, b"public", b"GET");
    assert_eq!(response.status, Status::NotFound);
    assert_eq!(response.body, b"missing");
}

#[test]
fn dispatch_loads_the_index_page_for_the_root_path() {
    let request = Request { method: b"GET", path: b"/", version: b"HTTP/1.1" };
    assert_eq!(
        dispatch(&request, b"public"),
        Step::Load(Load {
            status: Status::Success,
            content_type: "text/html",
            source: b"public/index.html".to_vec()
        })
    );
}

#[test]
fn dispatch_probes_the_file_under_the_root() {
    let request = Request { method: b"GET", path: b"/img/logo.png", version: b"HTTP/1.1" };
    assert_eq!(
        dispatch(&request, b"/srv/www/"),
        Step::Probe(Probe {
            target: b"/srv/www/img/logo.png".to_vec(),
            fallback: b"/srv/www/404.html".to_vec()
        })
    );
}

#[test]
fn dispatch_answers_other_methods_at_once() {
    let request = Request { method: b"POST", path: b"/", version: b"HTTP/1.1" };
    assert_eq!(
        dispatch(&request, b"public"),
        Step::Done(Response {
            status: Status::BadRequest,
            content_type: "text/html",
            body: b"<h1>400 Bad Request</h1>".to_vec()
        })
    );
}

#[test]
fn a_probe_that_finds_a_file_loads_it() {
    let probe =
        Probe { target: b"public/img/a.jpeg".to_vec(), fallback: b"public/404.html".to_vec() };
    assert_eq!(
        probe.resolve(true),
        Load {
            status: Status::Success,
            content_type: "image/jpeg",
            source: b"public/img/a.jpeg".to_vec()
        }
    );
}

#[test]
fn a_probe_that_finds_nothing_loads_the_not_found_page() {
    let probe =
        Probe { target: b"public/img/a.jpeg".to_vec(), fallback: b"public/404.html".to_vec() };
    assert_eq!(
        probe.resolve(false),
        Load {
            status: Status::NotFound,
            content_type: "text/html",
            source: b"public/404.html".to_vec()
        }
    );
}

#[test]
fn a_load_keeps_status_and_content_type() {
    let load = Load {
        status: Status::NotFound,
        content_type: "text/html",
        source: b"public/404.html".to_vec(),
    };
    assert_eq!(
        load.finish(Some(b"gone".to_vec())),
        Response { status: Status::NotFound, content_type: "text/html", body: b"gone".to_vec() }
    );
}

#[test]
fn the_plain_dispatch_follows_parent_segments_out_of_the_root() {
    let files = site(&[
        (b"public/404.html", b"missing"),
        (b"public/../secret.txt", b"top secret"),
    ]);
    let response = serve(&files, b"public", b"GET /../secret.txt HTTP/1.1\r\n");
    assert_eq!(response.status, Status::Success);
    assert_eq!(response.body, b"top secret");
}

#[test]
fn the_confined_dispatch_turns_down_a_path_that_leaves_the_root() {
    let files = site(&[
        (b"public/404.html", b"missing"),
        (b"public/../secret.txt", b"top secret"),
        (b"public/a/../../secret.txt", b"top secret"),
    ]);
    for buffer in [
        &b"GET /../secret.txt HTTP/1.1\r\n"[..],
        b"GET /a/../../secret.txt HTTP/1.1\r\n",
        b"GET ../secret.txt HTTP/1.1\r\n",
    ] {
        let response = serve_confined(&files, b"public", buffer);
        assert_eq!(response.status, Status::NotFound);
        assert_eq!(response.content_type, "text/html");
        assert_eq!(response.body, b"missing");
    }
}

#[test]
fn the_confined_dispatch_never_asks_for_a_file_outside_the_root() {
    let request = Request { method: b"GET", path: b"/../../etc/passwd", version: b"HTTP/1.1" };
    assert_eq!(
        dispatch_confined(&request, b"public"),
        Step::Load(Load {
            status: Status::NotFound,
            content_type: "text/html",
            source: b"public/404.html".to_vec()
        })
    );
}

#[test]
fn the_confined_dispatch_serves_what_stays_inside() {
    let files = site(&[
        (b"public/index.html", b"<h1>Home</h1>"),
        (b"public/404.html", b"missing"),
        (b"public/css/../img/logo.png", b"png"),
    ]);
    let response = serve_confined(&files, b"public", b"GET /css/../img/logo.png HTTP/1.1\r\n");
    assert_eq!(response.status, Status::Success);
    assert_eq!(response.content_type, "image/png");
    assert_eq!(response.body, b"png");
    let response = serve_confined(&files, b"public", b"GET / HTTP/1.1\r\n");
    assert_eq!(response.status, Status::Success);
    assert_eq!(response.body, b"<h1>Home</h1>");
    let response = serve_confined(&files, b"public", b"GET /nothing HTTP/1.1\r\n");
    assert_eq!(response.status, Status::NotFound);
    assert_eq!(response.body, b"missing");
    let response = serve_confined(&files, b"public", b"POST /../x HTTP/1.1\r\n");
    assert_eq!(response.status, Status::BadRequest);
}

#[test]
fn both_dispatches_agree_on_confined_paths() {
    for path in [&b"/"[..], b"/a", b"/a/../b.css", b"", b"//x/./y"] {
        for method in [&b"GET"[..], b"POST", b""] {
            let request = Request { method, path, version: b"HTTP/1.1" };
            assert_eq!(dispatch_confined(&request, b"public"), dispatch(&request, b"public"));
        }
    }
}
