use vstd::prelude::*;

use crate::bytes::{bytes_eq, bytes_of, find_byte_at, find_byte_from};

verus! {

/// `&`, the separator between form fields.
pub const AMPERSAND: u8 = 0x26;

/// `=`, the separator between a field's key and value.
pub const EQUALS_SIGN: u8 = 0x3d;

/// `+`, which stands for a space in a form-encoded component.
pub const PLUS_SIGN: u8 = 0x2b;

/// `%`, which introduces a two-digit hexadecimal escape.
pub const PERCENT_SIGN: u8 = 0x25;

pub open spec fn is_hex_digit(b: u8) -> bool {
    ||| (0x30 <= b && b <= 0x39)  // '0'..='9'
    ||| (0x41 <= b && b <= 0x46)  // 'A'..='F'
    ||| (0x61 <= b && b <= 0x66)  // 'a'..='f'
}

pub open spec fn hex_val(b: u8) -> u8 {
    if 0x30 <= b && b <= 0x39 {
        (b - 0x30) as u8
    } else if 0x41 <= b && b <= 0x46 {
        (b - 0x41 + 10) as u8
    } else {
        (b - 0x61 + 10) as u8
    }
}

/// Percent-decoding of one form-encoded component: `+` stands for a space,
/// `%` followed by two hexadecimal digits stands for that byte, and every
/// other byte (including a `%` without a valid escape) stands for itself.
pub open spec fn percent_decode(s: Seq<u8>) -> Seq<u8>
    decreases s.len(),
{
    if s.len() == 0 {
        Seq::empty()
    } else if s[0] == PLUS_SIGN {
        seq![0x20u8] + percent_decode(s.drop_first())
    } else if s[0] == PERCENT_SIGN && s.len() >= 3 && is_hex_digit(s[1]) && is_hex_digit(s[2]) {
        seq![(hex_val(s[1]) * 16 + hex_val(s[2])) as u8] + percent_decode(s.skip(3))
    } else {
        seq![s[0]] + percent_decode(s.drop_first())
    }
}

/// The form fields contributed by one `&`-separated piece: an empty piece
/// contributes nothing; otherwise the piece splits at its first `=` into a
/// key and a value (an absent `=` leaves the value empty), both
/// percent-decoded.
pub open spec fn pair_of_piece(piece: Seq<u8>) -> Seq<(Seq<u8>, Seq<u8>)> {
    if piece.len() == 0 {
        Seq::empty()
    } else {
        match find_byte_from(piece, EQUALS_SIGN, 0) {
            Some(e) => if 0 <= e <= piece.len() {
                seq![(percent_decode(piece.take(e)), percent_decode(piece.skip(e + 1)))]
            } else {
                // unreachable: a found index lies inside the piece
                Seq::empty()
            },
            None => seq![(percent_decode(piece), Seq::<u8>::empty())],
        }
    }
}

/// The form fields of the body from index `i` on: pieces are separated by
/// `&`, in order of appearance.
pub open spec fn form_pairs_from(body: Seq<u8>, i: int) -> Seq<(Seq<u8>, Seq<u8>)>
    decreases body.len() - i,
{
    match find_byte_from(body, AMPERSAND, i) {
        Some(a) => if i <= a < body.len() {
            pair_of_piece(body.subrange(i, a)) + form_pairs_from(body, a + 1)
        } else {
            // unreachable: a found index lies inside the body, after `i`
            Seq::empty()
        },
        None => if 0 <= i <= body.len() {
            pair_of_piece(body.subrange(i, body.len() as int))
        } else {
            Seq::empty()
        },
    }
}

/// All form fields of a urlencoded body, in order of appearance.
pub open spec fn form_pairs(body: Seq<u8>) -> Seq<(Seq<u8>, Seq<u8>)> {
    form_pairs_from(body, 0)
}

/// The value recorded for `key` when the decoded fields are collected into
/// a map: the value of the last piece whose key matches.
pub open spec fn form_value(pairs: Seq<(Seq<u8>, Seq<u8>)>, key: Seq<u8>) -> Option<Seq<u8>>
    decreases pairs.len(),
{
    if pairs.len() == 0 {
        None
    } else if pairs.last().0 == key {
        Some(pairs.last().1)
    } else {
        form_value(pairs.drop_last(), key)
    }
}

/// View of parsed fields as pairs of byte sequences.
pub open spec fn pairs_view(ps: Seq<(Vec<u8>, Vec<u8>)>) -> Seq<(Seq<u8>, Seq<u8>)> {
    ps.map_values(|p: (Vec<u8>, Vec<u8>)| (p.0@, p.1@))
}

/// The numeric value of a hexadecimal digit, or `None` for any other byte.
fn hex_digit_val(b: u8) -> (r: Option<u8>)
    ensures
        r == (if is_hex_digit(b) {
            Some(hex_val(b))
        } else {
            None::<u8>
        }),
{
    if 0x30 <= b && b <= 0x39 {
        Some(b - 0x30)
    } else if 0x41 <= b && b <= 0x46 {
        Some(b - 0x41 + 10)
    } else if 0x61 <= b && b <= 0x66 {
        Some(b - 0x61 + 10)
    } else {
        None
    }
}

/// Percent-decode one form-encoded component.
pub fn percent_decode_bytes(s: &[u8]) -> (r: Vec<u8>)
    ensures
        r@ == percent_decode(s@),
{
    let mut out: Vec<u8> = Vec::new();
    let mut i: usize = 0;
    proof {
        assert(s@.skip(0) =~= s@);
        assert(out@ + percent_decode(s@) =~= percent_decode(s@));
    }
    while i < s.len()
        invariant
            i <= s@.len(),
            out@ + percent_decode(s@.skip(i as int)) == percent_decode(s@),
        decreases s@.len() - i,
    {
        let ghost pre = out@;
        let ghost rest = s@.skip(i as int);
        proof {
            assert(rest[0] == s@[i as int]);
        }
        let b = s[i];
        if b == PLUS_SIGN {
            out.push(0x20);
            proof {
                assert(rest.drop_first() =~= s@.skip(i + 1));
                assert(out@ + percent_decode(s@.skip(i + 1)) =~= pre + percent_decode(rest));
            }
            i += 1;
        } else if b == PERCENT_SIGN && s.len() - i >= 3 {
            proof {
                assert(rest[1] == s@[i + 1]);
                assert(rest[2] == s@[i + 2]);
            }
            let h1 = hex_digit_val(s[i + 1]);
            let h2 = hex_digit_val(s[i + 2]);
            match (h1, h2) {
                (Some(v1), Some(v2)) => {
                    out.push(v1 * 16 + v2);
                    proof {
                        assert(rest.skip(3) =~= s@.skip(i + 3));
                        assert(out@ + percent_decode(s@.skip(i + 3)) =~= pre + percent_decode(
                            rest,
                        ));
                    }
                    i += 3;
                },
                _ => {
                    out.push(b);
                    proof {
                        assert(rest.drop_first() =~= s@.skip(i + 1));
                        assert(out@ + percent_decode(s@.skip(i + 1)) =~= pre + percent_decode(
                            rest,
                        ));
                    }
                    i += 1;
                },
            }
        } else {
            out.push(b);
            proof {
                assert(rest.drop_first() =~= s@.skip(i + 1));
                assert(out@ + percent_decode(s@.skip(i + 1)) =~= pre + percent_decode(rest));
            }
            i += 1;
        }
    }
    proof {
        assert(s@.skip(i as int) =~= Seq::<u8>::empty());
        assert(out@ + percent_decode(s@.skip(i as int)) =~= out@);
    }
    out
}

/// Decode one `&`-separated piece and append its field, if any, to `out`.
fn push_piece(out: &mut Vec<(Vec<u8>, Vec<u8>)>, piece: &[u8])
    ensures
        pairs_view(final(out)@) == pairs_view(old(out)@) + pair_of_piece(piece@),
{
    let ghost pre = pairs_view(out@);
    if piece.len() == 0 {
        proof {
            assert(pairs_view(out@) =~= pre + pair_of_piece(piece@));
        }
        return ;
    }
    match find_byte_at(piece, EQUALS_SIGN, 0) {
        Some(e) => {
            let key = percent_decode_bytes(vstd::slice::slice_subrange(piece, 0, e));
            let val = percent_decode_bytes(
                vstd::slice::slice_subrange(piece, e + 1, piece.len()),
            );
            proof {
                assert(piece@.subrange(0, e as int) =~= piece@.take(e as int));
                assert(piece@.subrange(e + 1, piece@.len() as int) =~= piece@.skip(e + 1));
            }
            out.push((key, val));
            proof {
                assert(pairs_view(out@) =~= pre + pair_of_piece(piece@));
            }
        },
        None => {
            let key = percent_decode_bytes(piece);
            let val: Vec<u8> = Vec::new();
            out.push((key, val));
            proof {
                assert(pairs_view(out@) =~= pre + pair_of_piece(piece@));
            }
        },
    }
}

/// Parse a urlencoded body into its decoded (key, value) fields, in order
/// of appearance.
pub fn parse_form(body: &[u8]) -> (pairs: Vec<(Vec<u8>, Vec<u8>)>)
    ensures
        pairs_view(pairs@) == form_pairs(body@),
{
    let n = body.len();
    let mut out: Vec<(Vec<u8>, Vec<u8>)> = Vec::new();
    let mut pos: usize = 0;
    proof {
        assert(pairs_view(out@) =~= Seq::<(Seq<u8>, Seq<u8>)>::empty());
    }
    loop
        invariant
            n == body@.len(),
            pos <= body@.len(),
            pairs_view(out@) + form_pairs_from(body@, pos as int) == form_pairs(body@),
        decreases body@.len() - pos,
    {
        let ghost pre = pairs_view(out@);
        match find_byte_at(body, AMPERSAND, pos) {
            Some(a) => {
                push_piece(&mut out, vstd::slice::slice_subrange(body, pos, a));
                proof {
                    assert(pairs_view(out@) + form_pairs_from(body@, a + 1) =~= pre
                        + form_pairs_from(body@, pos as int));
                }
                pos = a + 1;
            },
            None => {
                push_piece(&mut out, vstd::slice::slice_subrange(body, pos, n));
                proof {
                    assert(pairs_view(out@) =~= pre + pair_of_piece(
                        body@.subrange(pos as int, body@.len() as int),
                    ));
                }
                return out;
            },
        }
    }
}

/// The value of the last field named `key`, as collecting the fields into
/// a map would record it.
pub fn lookup_field(pairs: &Vec<(Vec<u8>, Vec<u8>)>, key: &[u8]) -> (r: Option<Vec<u8>>)
    ensures
        match r {
            Some(v) => form_value(pairs_view(pairs@), key@) == Some(v@),
            None => form_value(pairs_view(pairs@), key@) is None,
        },
{
    let ghost all = pairs_view(pairs@);
    let mut i: usize = pairs.len();
    proof {
        assert(all.take(i as int) =~= all);
    }
    while i > 0
        invariant
            all == pairs_view(pairs@),
            i <= pairs@.len(),
            all.len() == pairs@.len(),
            form_value(all.take(i as int), key@) == form_value(all, key@),
        decreases i,
    {
        i -= 1;
        let p = &pairs[i];
        proof {
            assert(all[i as int] == (pairs@[i as int].0@, pairs@[i as int].1@));
            assert(all.take(i + 1).last() == all[i as int]);
            assert(all.take(i + 1).drop_last() =~= all.take(i as int));
        }
        if bytes_eq(p.0.as_slice(), key) {
            return Some(bytes_of(p.1.as_slice()));
        }
    }
    proof {
        assert(all.take(0) =~= Seq::<(Seq<u8>, Seq<u8>)>::empty());
    }
    None
}

} // verus!
