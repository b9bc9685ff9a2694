//! The descriptor document (`info.yml`) generated next to the converted
//! files: pack name and author, the hit-effect grid when a hit effect was
//! produced, and the hold-atlas segment heights when the matching pieces
//! exist.  Fields whose source images are absent are omitted entirely.

use vstd::prelude::*;

use crate::codec::{decoded_image, get_image_dimensions, PackError};

verus! {

/// The descriptor record.  `hit_fx` is the grid's columns and rows;
/// `hold_atlas` and `hold_atlas_mh` are the end-cap and head-cap heights of
/// the two hold variants.
pub struct ResPackInfo {
    pub name: String,
    pub author: String,
    pub hit_fx: Option<(u32, u32)>,
    pub hold_atlas: Option<(u32, u32)>,
    pub hold_atlas_mh: Option<(u32, u32)>,
    pub description: String,
}

/// The hold-note pieces accumulated while routing assets, one slot per
/// accumulated role; populated once, then only read.
pub struct HoldComponents {
    pub hold_end: Option<Vec<u8>>,
    pub hold: Option<Vec<u8>>,
    pub hold_head: Option<Vec<u8>>,
    pub hold_hl: Option<Vec<u8>>,
    pub hold_head_hl: Option<Vec<u8>>,
}

/// The byte sequence a stored component holds.
pub open spec fn opt_bytes(o: Option<Vec<u8>>) -> Option<Seq<u8>> {
    match o {
        Some(v) => Some(v@),
        None => None,
    }
}

/// The atlas entry derived from an end cap and a head cap: absent unless
/// both pieces are present, otherwise the pair of their decoded heights; a
/// present piece that does not decode is an error.
pub open spec fn spec_atlas(end: Option<Seq<u8>>, head: Option<Seq<u8>>) -> Result<
    Option<(u32, u32)>,
    PackError,
> {
    match (end, head) {
        (Some(e), Some(h)) => match (decoded_image(e), decoded_image(h)) {
            (Some(ei), Some(hi)) => Ok(Some((ei.1, hi.1))),
            _ => Err(PackError::Decode),
        },
        _ => Ok(None),
    }
}

/// An atlas entry is present exactly when both its pieces are: whatever
/// other components (in particular the body) hold, `holdAtlas` appears iff
/// the end cap and the head cap are both in the component set.
pub proof fn lemma_atlas_iff_end_and_head(end: Option<Seq<u8>>, head: Option<Seq<u8>>)
    requires
        spec_atlas(end, head) is Ok,
    ensures
        spec_atlas(end, head)->Ok_0 is Some <==> (end is Some && head is Some),
{
}

/// Derives the descriptor from the pack identity, whether a hit-effect
/// output was produced, and the accumulated hold pieces.
pub fn generate_respack_info(
    name: String,
    author: String,
    has_hit_fx: bool,
    comps: &HoldComponents,
) -> (r: Result<ResPackInfo, PackError>)
    ensures
        ({
            let atlas = spec_atlas(opt_bytes(comps.hold_end), opt_bytes(comps.hold_head));
            let atlas_mh = spec_atlas(opt_bytes(comps.hold_end), opt_bytes(comps.hold_head_hl));
            match r {
                Ok(info) => atlas is Ok && atlas_mh is Ok && info.name == name && info.author
                    == author && info.hit_fx == (if has_hit_fx {
                    Some((5u32, 6u32))
                } else {
                    None::<(u32, u32)>
                }) && info.hold_atlas == atlas->Ok_0 && info.hold_atlas_mh == atlas_mh->Ok_0
                    && info.description@ == Seq::<char>::empty(),
                Err(e) => (atlas is Err || atlas_mh is Err) && e == PackError::Decode,
            }
        }),
{
    let hold_atlas = match (&comps.hold_end, &comps.hold_head) {
        (Some(end), Some(head)) => {
            let end_dims = match get_image_dimensions(end.as_slice()) {
                Ok(d) => d,
                Err(e) => {
                    return Err(e);
                },
            };
            let head_dims = match get_image_dimensions(head.as_slice()) {
                Ok(d) => d,
                Err(e) => {
                    return Err(e);
                },
            };
            Some((end_dims.1, head_dims.1))
        },
        _ => None,
    };
    let hold_atlas_mh = match (&comps.hold_end, &comps.hold_head_hl) {
        (Some(end), Some(head)) => {
            let end_dims = match get_image_dimensions(end.as_slice()) {
                Ok(d) => d,
                Err(e) => {
                    return Err(e);
                },
            };
            let head_dims = match get_image_dimensions(head.as_slice()) {
                Ok(d) => d,
                Err(e) => {
                    return Err(e);
                },
            };
            Some((end_dims.1, head_dims.1))
        },
        _ => None,
    };
    Ok(
        ResPackInfo {
            name,
            author,
            hit_fx: if has_hit_fx {
                Some((5, 6))
            } else {
                None
            },
            hold_atlas,
            hold_atlas_mh,
            description: String::new(),
        },
    )
}

/// The character of one decimal digit.
pub open spec fn dec_digit(d: int) -> char {
    if d == 0 {
        '0'
    } else if d == 1 {
        '1'
    } else if d == 2 {
        '2'
    } else if d == 3 {
        '3'
    } else if d == 4 {
        '4'
    } else if d == 5 {
        '5'
    } else if d == 6 {
        '6'
    } else if d == 7 {
        '7'
    } else if d == 8 {
        '8'
    } else {
        '9'
    }
}

/// The decimal numeral of `n`, most significant digit first.
pub open spec fn spec_dec(n: int) -> Seq<char>
    decreases n,
{
    if n < 10 {
        seq![dec_digit(n)]
    } else {
        spec_dec(n / 10) + seq![dec_digit(n % 10)]
    }
}

/// One decimal digit as a string slice.
fn digit_str(d: u32) -> (r: &'static str)
    requires
        d < 10,
    ensures
        r@ == seq![dec_digit(d as int)],
{
    let r: &'static str = match d {
        0 => "0",
        1 => "1",
        2 => "2",
        3 => "3",
        4 => "4",
        5 => "5",
        6 => "6",
        7 => "7",
        8 => "8",
        _ => "9",
    };
    proof {
        reveal_strlit("0");
        reveal_strlit("1");
        reveal_strlit("2");
        reveal_strlit("3");
        reveal_strlit("4");
        reveal_strlit("5");
        reveal_strlit("6");
        reveal_strlit("7");
        reveal_strlit("8");
        reveal_strlit("9");
        assert(r@ =~= seq![dec_digit(d as int)]);
    }
    r
}

/// Writes `n` in decimal.
pub fn u32_to_dec(n: u32) -> (s: String)
    ensures
        s@ == spec_dec(n as int),
    decreases n,
{
    if n < 10 {
        digit_str(n).to_owned()
    } else {
        let mut s = u32_to_dec(n / 10);
        s.append(digit_str(n % 10));
        s
    }
}

/// A character as it appears inside a single-quoted scalar: quotes are
/// doubled, everything else stands as it is.
pub open spec fn esc_char(c: char) -> Seq<char> {
    if c == '\'' {
        seq!['\'', '\'']
    } else {
        seq![c]
    }
}

/// A string's characters as they appear inside a single-quoted scalar.
pub open spec fn esc(s: Seq<char>) -> Seq<char>
    decreases s.len(),
{
    if s.len() == 0 {
        Seq::empty()
    } else {
        esc(s.drop_last()) + esc_char(s.last())
    }
}

/// The single-quoted scalar holding `s`.
pub open spec fn yaml_quoted(s: Seq<char>) -> Seq<char> {
    seq!['\''] + esc(s) + seq!['\'']
}

/// Quotes a string as a single-quoted scalar, doubling interior quotes.
pub fn yaml_quote(s: &str) -> (r: String)
    ensures
        r@ == yaml_quoted(s@),
{
    let len = s.unicode_len();
    let mut r = "'".to_owned();
    proof {
        reveal_strlit("'");
        assert(r@ =~= seq!['\''] + esc(s@.subrange(0, 0)));
    }
    for i in 0..len
        invariant
            len == s@.len(),
            r@ == seq!['\''] + esc(s@.subrange(0, i as int)),
    {
        let c = s.get_char(i);
        if c == '\'' {
            r.append("''");
            proof {
                reveal_strlit("''");
            }
        } else {
            let piece = s.substring_char(i, i + 1);
            r.append(piece);
        }
        proof {
            assert(s@.subrange(0, i + 1).drop_last() =~= s@.subrange(0, i as int));
            assert(s@.subrange(0, i + 1).last() == s@[i as int]);
            if c == '\'' {
                reveal_strlit("''");
                assert(r@ =~= seq!['\''] + esc(s@.subrange(0, i + 1)));
            } else {
                assert(s@.subrange(i as int, i + 1) =~= seq![s@[i as int]]);
                assert(r@ =~= seq!['\''] + esc(s@.subrange(0, i + 1)));
            }
        }
    }
    proof {
        assert(s@.subrange(0, len as int) =~= s@);
    }
    r.append("'");
    proof {
        reveal_strlit("'");
        assert(r@ =~= seq!['\''] + esc(s@) + seq!['\'']);
    }
    r
}

/// The descriptor document: one `key: value` line per field, strings
/// single-quoted, pairs as flow lists, optional fields omitted when absent;
/// fields in the fixed order name, author, hitFx, holdAtlas, holdAtlasMH,
/// description.
pub open spec fn spec_pair_line(key: Seq<char>, v: (u32, u32)) -> Seq<char> {
    key + ": ["@ + spec_dec(v.0 as int) + ", "@ + spec_dec(v.1 as int) + "]\n"@
}

/// An optional field's lines: the field's line when present, nothing when
/// absent.
pub open spec fn spec_opt_pair_line(key: Seq<char>, v: Option<(u32, u32)>) -> Seq<char> {
    match v {
        Some(p) => spec_pair_line(key, p),
        None => Seq::<char>::empty(),
    }
}

pub open spec fn spec_info_yaml_v(
    name: Seq<char>,
    author: Seq<char>,
    hit_fx: Option<(u32, u32)>,
    hold_atlas: Option<(u32, u32)>,
    hold_atlas_mh: Option<(u32, u32)>,
    description: Seq<char>,
) -> Seq<char> {
    "name: "@ + yaml_quoted(name) + "\n"@ + "author: "@ + yaml_quoted(author) + "\n"@
        + spec_opt_pair_line("hitFx"@, hit_fx) + spec_opt_pair_line("holdAtlas"@, hold_atlas)
        + spec_opt_pair_line("holdAtlasMH"@, hold_atlas_mh) + "description: "@ + yaml_quoted(
        description,
    ) + "\n"@
}

/// The document a descriptor record renders to.
pub open spec fn spec_info_yaml(info: ResPackInfo) -> Seq<char> {
    spec_info_yaml_v(
        info.name@,
        info.author@,
        info.hit_fx,
        info.hold_atlas,
        info.hold_atlas_mh,
        info.description@,
    )
}

/// Appends `key: [a, b]` and a newline.
fn append_pair_line(r: &mut String, key: &str, v: (u32, u32))
    ensures
        final(r)@ == old(r)@ + spec_pair_line(key@, v),
{
    r.append(key);
    r.append(": [");
    let a = u32_to_dec(v.0);
    r.append(a.as_str());
    r.append(", ");
    let b = u32_to_dec(v.1);
    r.append(b.as_str());
    r.append("]\n");
}

/// Renders the descriptor document.
pub fn render_respack_info(info: &ResPackInfo) -> (r: String)
    ensures
        r@ == spec_info_yaml(*info),
{
    let mut r = "name: ".to_owned();
    let qn = yaml_quote(info.name.as_str());
    r.append(qn.as_str());
    r.append("\n");
    r.append("author: ");
    let qa = yaml_quote(info.author.as_str());
    r.append(qa.as_str());
    r.append("\n");
    if let Some(v) = info.hit_fx {
        append_pair_line(&mut r, "hitFx", v);
    }
    if let Some(v) = info.hold_atlas {
        append_pair_line(&mut r, "holdAtlas", v);
    }
    if let Some(v) = info.hold_atlas_mh {
        append_pair_line(&mut r, "holdAtlasMH", v);
    }
    r.append("description: ");
    let qd = yaml_quote(info.description.as_str());
    r.append(qd.as_str());
    r.append("\n");
    proof {
        assert(r@ =~= spec_info_yaml(*info));
    }
    r
}

} // verus!
