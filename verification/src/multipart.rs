use vstd::prelude::*;

use crate::bytes::{
    bytes_eq, bytes_of, concat_bytes, find_byte_at, find_byte_from, find_sub_at, find_sub_from,
};
use vstd::utf8::encode_utf8;

verus! {

/// `\r\n`, the line terminator of the multipart framing.
pub open spec fn crlf() -> Seq<u8> {
    seq![0x0du8, 0x0au8]
}

/// `\r\n\r\n`, the blank line that ends a part's header block.
pub open spec fn crlf2() -> Seq<u8> {
    crlf() + crlf()
}

/// `--` followed by the boundary: the delimiter between parts.
pub open spec fn dash_boundary(b: Seq<u8>) -> Seq<u8> {
    seq![0x2du8, 0x2du8] + b
}

/// A part's content runs until the delimiter on a fresh line.
pub open spec fn close_pattern(b: Seq<u8>) -> Seq<u8> {
    crlf() + dash_boundary(b)
}

/// The bytes that introduce a quoted field name in a part's headers.
pub open spec fn name_pattern() -> Seq<u8> {
    encode_utf8(" name=\""@)
}

/// The media type that announces a multipart form body.
pub open spec fn multipart_prefix() -> Seq<u8> {
    encode_utf8("multipart/form-data"@)
}

/// The bytes that introduce the boundary parameter of a content type.
pub open spec fn boundary_key() -> Seq<u8> {
    encode_utf8("boundary="@)
}

/// The piece with its leading spaces and tabs removed.
pub open spec fn trim_leading_ws(s: Seq<u8>) -> Seq<u8>
    decreases s.len(),
{
    if s.len() > 0 && (s[0] == 0x20 || s[0] == 0x09) {
        trim_leading_ws(s.drop_first())
    } else {
        s
    }
}

/// The boundary named by one `;`-separated content-type parameter, if this
/// piece is a `boundary=` parameter: its value, with one pair of
/// surrounding double quotes removed if present.
pub open spec fn boundary_param(piece: Seq<u8>) -> Option<Seq<u8>> {
    let t = trim_leading_ws(piece);
    let k = boundary_key();
    if t.len() >= k.len() && t.take(k.len() as int) == k {
        let v = t.skip(k.len() as int);
        if v.len() >= 2 && v[0] == 0x22 && v[v.len() - 1] == 0x22 {
            Some(v.subrange(1, v.len() - 1))
        } else {
            Some(v)
        }
    } else {
        None::<Seq<u8>>
    }
}

/// The boundary named by the first `boundary=` parameter among the
/// `;`-separated parameters of `ct` from index `i` on.
pub open spec fn boundary_in_params(ct: Seq<u8>, i: int) -> Option<Seq<u8>>
    decreases ct.len() - i,
{
    match find_byte_from(ct, 0x3b, i) {
        Some(a) => if i <= a < ct.len() {
            match boundary_param(ct.subrange(i, a)) {
                Some(v) => Some(v),
                None => boundary_in_params(ct, a + 1),
            }
        } else {
            // unreachable: a found index lies inside `ct`, at or after `i`
            None::<Seq<u8>>
        },
        None => if 0 <= i <= ct.len() {
            boundary_param(ct.subrange(i, ct.len() as int))
        } else {
            None::<Seq<u8>>
        },
    }
}

/// The multipart boundary a content-type header names, if any: the header
/// must carry the `multipart/form-data` media type, and the boundary is
/// the value of its first `boundary=` parameter.
pub open spec fn boundary_of(ct: Seq<u8>) -> Option<Seq<u8>> {
    let p = multipart_prefix();
    if ct.len() >= p.len() && ct.take(p.len() as int) == p && (ct.len() == p.len() || ct[p.len() as int]
        == 0x3b || ct[p.len() as int] == 0x20) {
        boundary_in_params(ct, p.len() as int)
    } else {
        None::<Seq<u8>>
    }
}

/// The quoted field name in a part's header block, if one is announced.
pub open spec fn field_name(headers: Seq<u8>) -> Option<Seq<u8>> {
    let pat = name_pattern();
    match find_sub_from(headers, pat, 0) {
        Some(m) => match find_byte_from(headers, 0x22, m + pat.len()) {
            Some(q) => if m + pat.len() <= q {
                Some(headers.subrange(m + pat.len(), q))
            } else {
                // unreachable: the quote is found at or after the name start
                None::<Seq<u8>>
            },
            None => None::<Seq<u8>>,
        },
        None => None::<Seq<u8>>,
    }
}

/// What parsing a multipart body for its first field yields.
pub enum FieldSpec {
    /// The first part announces a field name, and its content is delimited.
    Found(Seq<u8>, Seq<u8>),
    /// The body is well delimited but holds no named first field.
    Absent,
    /// The framing is broken: the body does not start with the delimiter,
    /// or a part is left unterminated.
    Malformed,
}

/// The first field of a multipart body: the body must open with
/// `--boundary`; `--` ends the body at once; otherwise the first part's
/// headers run to the first blank line, its quoted name is read from them,
/// and its content runs to the delimiter on the next fresh line.
pub open spec fn first_field(body: Seq<u8>, b: Seq<u8>) -> FieldSpec {
    let d = dash_boundary(b);
    if !(body.len() >= d.len() && body.take(d.len() as int) == d) {
        FieldSpec::Malformed
    } else {
        let after = d.len() as int;
        if body.len() >= after + 2 && body[after] == 0x2d && body[after + 1] == 0x2d {
            FieldSpec::Absent
        } else if body.len() >= after + 2 && body[after] == 0x0d && body[after + 1] == 0x0a {
            match find_sub_from(body, crlf2(), after) {
                Some(h) => {
                    let headers = if h >= after + 2 {
                        body.subrange(after + 2, h)
                    } else {
                        Seq::<u8>::empty()
                    };
                    let c = h + 4;
                    match find_sub_from(body, close_pattern(b), c) {
                        Some(k) => if c <= k <= body.len() {
                            match field_name(headers) {
                                Some(nm) => FieldSpec::Found(nm, body.subrange(c, k)),
                                None => FieldSpec::Absent,
                            }
                        } else {
                            // unreachable: a found index lies at or after `c`
                            FieldSpec::Malformed
                        },
                        None => FieldSpec::Malformed,
                    }
                },
                None => FieldSpec::Malformed,
            }
        } else {
            FieldSpec::Malformed
        }
    }
}

/// Result of parsing a multipart body for its first field.
pub enum FirstField {
    /// The field's name and its raw content bytes.
    Found(Vec<u8>, Vec<u8>),
    /// No named first field.
    Absent,
    /// Broken framing.
    Malformed,
}

/// Extract the boundary from a content-type header value, if it announces
/// a multipart form body.
pub fn parse_boundary(ct: &[u8]) -> (r: Option<Vec<u8>>)
    ensures
        match r {
            Some(b) => boundary_of(ct@) == Some(b@),
            None => boundary_of(ct@) is None,
        },
{
    let p = "multipart/form-data".as_bytes();
    let n = ct.len();
    if n < p.len() {
        return None;
    }
    if !bytes_eq(vstd::slice::slice_subrange(ct, 0, p.len()), p) {
        proof {
            assert(ct@.subrange(0, p@.len() as int) == ct@.take(multipart_prefix().len() as int));
        }
        return None;
    }
    let plen = p.len();
    proof {
        assert(ct@.take(multipart_prefix().len() as int) == ct@.subrange(0, p@.len() as int));
    }
    if n > plen && !(ct[plen] == 0x3b || ct[plen] == 0x20) {
        return None;
    }
    let mut pos: usize = plen;
    loop
        invariant
            n == ct@.len(),
            pos <= n,
            boundary_of(ct@) == boundary_in_params(ct@, pos as int),
        decreases ct@.len() - pos,
    {
        match find_byte_at(ct, 0x3b, pos) {
            Some(a) => {
                match boundary_param_piece(vstd::slice::slice_subrange(ct, pos, a)) {
                    Some(v) => {
                        return Some(v);
                    },
                    None => {
                        pos = a + 1;
                    },
                }
            },
            None => {
                return boundary_param_piece(vstd::slice::slice_subrange(ct, pos, n));
            },
        }
    }
}

/// The boundary named by one content-type parameter piece, if it is a
/// `boundary=` parameter.
fn boundary_param_piece(piece: &[u8]) -> (r: Option<Vec<u8>>)
    ensures
        match r {
            Some(v) => boundary_param(piece@) == Some(v@),
            None => boundary_param(piece@) is None,
        },
{
    let n = piece.len();
    let mut i: usize = 0;
    proof {
        assert(piece@.skip(0) =~= piece@);
    }
    while i < n && (piece[i] == 0x20 || piece[i] == 0x09)
        invariant
            n == piece@.len(),
            i <= n,
            trim_leading_ws(piece@) == trim_leading_ws(piece@.skip(i as int)),
        decreases n - i,
    {
        proof {
            assert(piece@.skip(i as int)[0] == piece@[i as int]);
            assert(piece@.skip(i as int).drop_first() =~= piece@.skip(i + 1));
        }
        i += 1;
    }
    proof {
        if i < n {
            assert(piece@.skip(i as int)[0] == piece@[i as int]);
        }
        assert(trim_leading_ws(piece@.skip(i as int)) == piece@.skip(i as int));
    }
    let ghost t = piece@.skip(i as int);
    let k = "boundary=".as_bytes();
    if n - i < k.len() {
        return None;
    }
    if !bytes_eq(vstd::slice::slice_subrange(piece, i, i + k.len()), k) {
        proof {
            assert(t.take(boundary_key().len() as int) =~= piece@.subrange(
                i as int,
                i + k@.len(),
            ));
        }
        return None;
    }
    proof {
        assert(t.take(boundary_key().len() as int) =~= piece@.subrange(i as int, i + k@.len()));
    }
    let vstart = i + k.len();
    proof {
        assert(t.skip(boundary_key().len() as int) =~= piece@.subrange(vstart as int, n as int));
    }
    if n - vstart >= 2 && piece[vstart] == 0x22 && piece[n - 1] == 0x22 {
        proof {
            let v = t.skip(boundary_key().len() as int);
            assert(v[0] == piece@[vstart as int]);
            assert(v[v.len() - 1] == piece@[n - 1]);
            assert(v.subrange(1, v.len() - 1) =~= piece@.subrange(vstart + 1, n - 1));
        }
        Some(bytes_of(vstd::slice::slice_subrange(piece, vstart + 1, n - 1)))
    } else {
        proof {
            let v = t.skip(boundary_key().len() as int);
            if v.len() >= 2 {
                assert(v[0] == piece@[vstart as int]);
                assert(v[v.len() - 1] == piece@[n - 1]);
            }
        }
        Some(bytes_of(vstd::slice::slice_subrange(piece, vstart, n)))
    }
}

/// The quoted field name announced in a part's header block, if any.
fn field_name_of(headers: &[u8]) -> (r: Option<Vec<u8>>)
    ensures
        match r {
            Some(nm) => field_name(headers@) == Some(nm@),
            None => field_name(headers@) is None,
        },
{
    let pat = " name=\"".as_bytes();
    let hlen = headers.len();
    match find_sub_at(headers, pat, 0) {
        Some(m) => {
            match find_byte_at(headers, 0x22, m + pat.len()) {
                Some(q) => Some(bytes_of(vstd::slice::slice_subrange(headers, m + pat.len(), q))),
                None => None,
            }
        },
        None => None,
    }
}

/// Parse a multipart body for its first field, against the given boundary.
pub fn parse_first_field(body: &[u8], boundary: &[u8]) -> (r: FirstField)
    ensures
        match r {
            FirstField::Found(nm, c) => first_field(body@, boundary@) == FieldSpec::Found(nm@, c@),
            FirstField::Absent => first_field(body@, boundary@) == FieldSpec::Absent,
            FirstField::Malformed => first_field(body@, boundary@) == FieldSpec::Malformed,
        },
{
    let mut dashes: Vec<u8> = Vec::new();
    dashes.push(0x2d);
    dashes.push(0x2d);
    let d = concat_bytes(dashes.as_slice(), boundary);
    proof {
        assert(dashes@ =~= seq![0x2du8, 0x2du8]);
        assert(d@ =~= dash_boundary(boundary@));
    }
    if body.len() < d.len() {
        return FirstField::Malformed;
    }
    if !bytes_eq(vstd::slice::slice_subrange(body, 0, d.len()), d.as_slice()) {
        proof {
            assert(body@.take(d@.len() as int) == body@.subrange(0, d@.len() as int));
        }
        return FirstField::Malformed;
    }
    proof {
        assert(body@.take(d@.len() as int) == body@.subrange(0, d@.len() as int));
    }
    let after = d.len();
    if body.len() - after < 2 {
        return FirstField::Malformed;
    }
    if body[after] == 0x2d && body[after + 1] == 0x2d {
        return FirstField::Absent;
    }
    if !(body[after] == 0x0d && body[after + 1] == 0x0a) {
        return FirstField::Malformed;
    }
    let mut blank: Vec<u8> = Vec::new();
    blank.push(0x0d);
    blank.push(0x0a);
    blank.push(0x0d);
    blank.push(0x0a);
    proof {
        assert(blank@ =~= crlf2());
    }
    match find_sub_at(body, blank.as_slice(), after) {
        Some(h) => {
            let headers: &[u8] = if h >= after + 2 {
                vstd::slice::slice_subrange(body, after + 2, h)
            } else {
                vstd::slice::slice_subrange(body, after, after)
            };
            proof {
                if h < after + 2 {
                    assert(headers@ =~= Seq::<u8>::empty());
                }
            }
            let c = h + 4;
            let mut crlf_v: Vec<u8> = Vec::new();
            crlf_v.push(0x0d);
            crlf_v.push(0x0a);
            let close = concat_bytes(crlf_v.as_slice(), d.as_slice());
            proof {
                assert(crlf_v@ =~= crlf());
                assert(close@ =~= close_pattern(boundary@));
            }
            match find_sub_at(body, close.as_slice(), c) {
                Some(k) => {
                    match field_name_of(headers) {
                        Some(nm) => FirstField::Found(
                            nm,
                            bytes_of(vstd::slice::slice_subrange(body, c, k)),
                        ),
                        None => FirstField::Absent,
                    }
                },
                None => FirstField::Malformed,
            }
        },
        None => FirstField::Malformed,
    }
}

} // verus!
