use vstd::prelude::*;

use crate::bytes::bytes_eq;
use crate::form::{form_pairs, form_value, lookup_field, parse_form};
use crate::idgen::is_fresh_id;
use crate::multipart::{
    boundary_of, first_field, parse_boundary, parse_first_field, FieldSpec, FirstField,
};
use crate::store::{id_for_link, link_for_id, Store};
use vstd::utf8::encode_utf8;

verus! {

/// HTTP method of an incoming request, as the router distinguishes them.
pub enum Method {
    Get,
    Post,
    /// Any method other than GET or POST.
    Other,
}

/// The response the service hands back: the status code, whether a
/// `Content-Type: text/html` header is set, the `Location` header if any,
/// and the body bytes.
pub struct HttpResponse {
    pub status: u16,
    pub html: bool,
    pub location: Option<Vec<u8>>,
    pub body: Vec<u8>,
}

/// Spec-level picture of a response.
pub struct ResponseModel {
    pub status: int,
    pub html: bool,
    pub location: Option<Seq<u8>>,
    pub body: Seq<u8>,
}

impl View for HttpResponse {
    type V = ResponseModel;

    open spec fn view(&self) -> ResponseModel {
        ResponseModel {
            status: self.status as int,
            html: self.html,
            location: match self.location {
                Some(l) => Some(l@),
                None => None::<Seq<u8>>,
            },
            body: self.body@,
        }
    }
}

/// An empty-bodied response carrying only a status.
pub open spec fn is_status_resp(r: ResponseModel, status: int) -> bool {
    &&& r.status == status
    &&& !r.html
    &&& r.location is None
    &&& r.body.len() == 0
}

/// The 200 text/html response whose body is the short id.
pub open spec fn is_shortlink_resp(r: ResponseModel, id: Seq<u8>) -> bool {
    &&& r.status == 200
    &&& r.html
    &&& r.location is None
    &&& r.body == id
}

/// The HTML body of a redirect: it announces the destination and carries
/// a clickable link to it.
pub open spec fn redirect_body(link: Seq<u8>) -> Seq<u8> {
    encode_utf8("You will be redirected to: <a href=\""@) + link + encode_utf8("\">"@) + link
        + encode_utf8("</a>. If not, click the link."@)
}

/// The 301 response redirecting to `link`.
pub open spec fn is_redirect_resp(r: ResponseModel, link: Seq<u8>) -> bool {
    &&& r.status == 301
    &&& r.html
    &&& r.location == Some(link)
    &&& r.body == redirect_body(link)
}

/// The form field in which a link to shorten is submitted.
pub open spec fn shorten_key() -> Seq<u8> {
    encode_utf8("shorten"@)
}

/// The boundary named by an optional content-type header value.
pub open spec fn header_boundary(ct: Option<Vec<u8>>) -> Option<Seq<u8>> {
    match ct {
        Some(c) => boundary_of(c@),
        None => None::<Seq<u8>>,
    }
}

/// Shortening `link` against the mappings `old_rows` left `new_rows` and
/// responded with `r`: an already-known link answers with its recorded id
/// and changes nothing; a new link answers with a fresh id and appends
/// exactly one mapping.
pub open spec fn shorten_outcome(
    old_rows: Seq<(Seq<u8>, Seq<u8>)>,
    new_rows: Seq<(Seq<u8>, Seq<u8>)>,
    link: Seq<u8>,
    r: ResponseModel,
) -> bool {
    match id_for_link(old_rows, link) {
        Some(id) => is_shortlink_resp(r, id) && new_rows == old_rows,
        None => {
            &&& is_shortlink_resp(r, r.body)
            &&& is_fresh_id(r.body)
            &&& new_rows == old_rows.push((link, r.body))
        },
    }
}

/// 200 response carrying the short link as its body.
pub fn respond_with_shortlink(shortlink: Vec<u8>) -> (r: HttpResponse)
    ensures
        is_shortlink_resp(r@, shortlink@),
{
    HttpResponse { status: 200, html: true, location: None, body: shortlink }
}

/// Empty response carrying only the given status.
pub fn respond_with_status(s: u16) -> (r: HttpResponse)
    ensures
        is_status_resp(r@, s as int),
{
    HttpResponse { status: s, html: false, location: None, body: Vec::new() }
}

/// 301 redirect to `link`, with the announcing HTML body.
pub fn respond_with_redirect(link: Vec<u8>) -> (r: HttpResponse)
    ensures
        is_redirect_resp(r@, link@),
{
    let mut body: Vec<u8> = Vec::new();
    crate::bytes::push_bytes(&mut body, "You will be redirected to: <a href=\"".as_bytes());
    crate::bytes::push_bytes(&mut body, link.as_slice());
    crate::bytes::push_bytes(&mut body, "\">".as_bytes());
    crate::bytes::push_bytes(&mut body, link.as_slice());
    crate::bytes::push_bytes(&mut body, "</a>. If not, click the link.".as_bytes());
    proof {
        assert(body@ =~= redirect_body(link@));
    }
    HttpResponse { status: 301, html: true, location: Some(link), body }
}

/// Dispatch one request.
///
/// POST decodes the body — against the boundary if the content type
/// announces multipart form data, as urlencoded form data otherwise —
/// looks up or creates a mapping for the submitted link, and answers with
/// its short id; a urlencoded body without the `shorten` field draws 422,
/// a multipart body without it draws an empty 200, and broken multipart
/// framing draws 500. GET resolves the path (without its leading `/`) as
/// a short id and redirects, or answers 404. Any other method draws 404.
pub fn handle_request(
    method: Method,
    path: &[u8],
    content_type: &Option<Vec<u8>>,
    body: &[u8],
    store: &mut Store,
) -> (r: HttpResponse)
    requires
        old(store).wf(),
        method is Get ==> path@.len() >= 1 && path@[0] == 0x2f,
    ensures
        final(store).wf(),
        match method {
            Method::Get => {
                &&& final(store).mappings() == old(store).mappings()
                &&& match link_for_id(old(store).mappings(), path@.skip(1)) {
                    Some(l) => is_redirect_resp(r@, l),
                    None => is_status_resp(r@, 404),
                }
            },
            Method::Post => match header_boundary(*content_type) {
                None => match form_value(form_pairs(body@), shorten_key()) {
                    Some(link) => shorten_outcome(
                        old(store).mappings(),
                        final(store).mappings(),
                        link,
                        r@,
                    ),
                    None => is_status_resp(r@, 422) && final(store).mappings() == old(
                        store,
                    ).mappings(),
                },
                Some(bd) => match first_field(body@, bd) {
                    FieldSpec::Found(nm, content) => if nm == shorten_key() {
                        shorten_outcome(old(store).mappings(), final(store).mappings(), content, r@)
                    } else {
                        is_status_resp(r@, 200) && final(store).mappings() == old(store).mappings()
                    },
                    FieldSpec::Absent => is_status_resp(r@, 200) && final(store).mappings() == old(
                        store,
                    ).mappings(),
                    FieldSpec::Malformed => is_status_resp(r@, 500) && final(store).mappings()
                        == old(store).mappings(),
                },
            },
            Method::Other => is_status_resp(r@, 404) && final(store).mappings() == old(
                store,
            ).mappings(),
        },
{
    match method {
        Method::Post => {
            let boundary: Option<Vec<u8>> = match content_type {
                Some(ct) => parse_boundary(ct.as_slice()),
                None => None,
            };
            match boundary {
                None => {
                    let pairs = parse_form(body);
                    match lookup_field(&pairs, "shorten".as_bytes()) {
                        Some(link) => {
                            let id = store.lookup_or_create(link.as_slice());
                            respond_with_shortlink(id)
                        },
                        None => respond_with_status(422),
                    }
                },
                Some(bd) => {
                    match parse_first_field(body, bd.as_slice()) {
                        FirstField::Found(nm, content) => {
                            if bytes_eq(nm.as_slice(), "shorten".as_bytes()) {
                                let id = store.lookup_or_create(content.as_slice());
                                respond_with_shortlink(id)
                            } else {
                                respond_with_status(200)
                            }
                        },
                        FirstField::Absent => respond_with_status(200),
                        FirstField::Malformed => respond_with_status(500),
                    }
                },
            }
        },
        Method::Get => {
            let candidate = vstd::slice::slice_subrange(path, 1, path.len());
            proof {
                assert(candidate@ =~= path@.skip(1));
            }
            match store.resolve(candidate) {
                Some(l) => respond_with_redirect(l),
                None => respond_with_status(404),
            }
        },
        Method::Other => respond_with_status(404),
    }
}

} // verus!
