//! The asset router and pack builder: given the classified, fetched assets
//! it decides each asset's disposition (transform, accumulate, copy
//! verbatim), produces the two combined hold sprites when their pieces are
//! all present, and derives the descriptor document.
//!
//! Everything here is a plan over plain bytes: the surrounding program
//! fetches the assets beforehand and writes the returned files afterwards,
//! the descriptor last.

use vstd::prelude::*;
use vstd::slice::slice_to_vec;

use crate::codec::PackError;
use crate::descriptor::{
    generate_respack_info,
    opt_bytes,
    render_respack_info,
    spec_atlas,
    spec_info_yaml,
    spec_info_yaml_v,
    HoldComponents,
};
use crate::roles::{get_filename, spec_filename, ImageResType, ResType};
use crate::transform::{combine_hold_images, hit_fx_convector, spec_combine, spec_hit_fx};

verus! {

/// One downloaded asset: its classified role and its raw bytes.
pub struct FetchedAsset {
    pub res_type: ResType,
    pub content: Vec<u8>,
}

/// One file of the converted pack: its name inside the output directory and
/// its bytes.
pub struct OutputFile {
    pub filename: String,
    pub data: Vec<u8>,
}

/// Everything the conversion produces: the image and audio files, in the
/// order they are to be written, and the descriptor document, to be written
/// last as `info.yml`.
pub struct PackOutput {
    pub files: Vec<OutputFile>,
    pub info_yml: String,
}

/// An asset as its mathematical value.
pub open spec fn asset_view(a: FetchedAsset) -> (ResType, Seq<u8>) {
    (a.res_type, a.content@)
}

/// An asset list as its mathematical value.
pub open spec fn assets_view(s: Seq<FetchedAsset>) -> Seq<(ResType, Seq<u8>)> {
    s.map_values(|a: FetchedAsset| asset_view(a))
}

/// An output file list as its mathematical value.
pub open spec fn files_view(s: Seq<OutputFile>) -> Seq<(Seq<char>, Seq<u8>)> {
    s.map_values(|f: OutputFile| (f.filename@, f.data@))
}

/// The roles that are not persisted on their own but accumulated for the
/// combined hold sprites.
pub open spec fn is_hold_component(t: ResType) -> bool {
    ||| t == ResType::Image(ImageResType::HoldEnd)
    ||| t == ResType::Image(ImageResType::Hold)
    ||| t == ResType::Image(ImageResType::HoldHead)
    ||| t == ResType::Image(ImageResType::HoldHL)
    ||| t == ResType::Image(ImageResType::HoldHeadHL)
}

/// The bytes accumulated for hold piece role `t`: those of the last asset
/// with that role, if any.
pub open spec fn comp_bytes(assets: Seq<(ResType, Seq<u8>)>, t: ImageResType) -> Option<Seq<u8>>
    decreases assets.len(),
{
    if assets.len() == 0 {
        None
    } else if assets.last().0 == ResType::Image(t) {
        Some(assets.last().1)
    } else {
        comp_bytes(assets.drop_last(), t)
    }
}

/// Some asset has role `t`.
pub open spec fn spec_has_role(assets: Seq<(ResType, Seq<u8>)>, t: ResType) -> bool {
    exists|i: int| 0 <= i < assets.len() && (#[trigger] assets[i]).0 == t
}

/// The per-asset output files, in asset order: the hit effect re-tiled, hold
/// pieces held back, everything else copied verbatim under its fixed
/// filename; the first failing transform aborts with its error.
pub open spec fn spec_asset_files(assets: Seq<(ResType, Seq<u8>)>) -> Result<
    Seq<(Seq<char>, Seq<u8>)>,
    PackError,
>
    decreases assets.len(),
{
    if assets.len() == 0 {
        Ok(Seq::empty())
    } else {
        match spec_asset_files(assets.drop_last()) {
            Err(e) => Err(e),
            Ok(fs) => {
                let t = assets.last().0;
                let bytes = assets.last().1;
                if t == ResType::Image(ImageResType::HitFX) {
                    match spec_hit_fx(bytes) {
                        Ok(d) => Ok(fs.push((spec_filename(t), d))),
                        Err(e) => Err(e),
                    }
                } else if is_hold_component(t) {
                    Ok(fs)
                } else {
                    Ok(fs.push((spec_filename(t), bytes)))
                }
            },
        }
    }
}

/// One combined hold variant: its file when the end cap and the variant's
/// body and head are all present, nothing when any piece is missing, the
/// compositor's error when combining fails.
pub open spec fn spec_one_combined(
    assets: Seq<(ResType, Seq<u8>)>,
    body_role: ImageResType,
    head_role: ImageResType,
    file_role: ImageResType,
) -> Result<Option<(Seq<char>, Seq<u8>)>, PackError> {
    match (
        comp_bytes(assets, ImageResType::HoldEnd),
        comp_bytes(assets, body_role),
        comp_bytes(assets, head_role),
    ) {
        (Some(eb), Some(bb), Some(hb)) => match spec_combine(eb, bb, hb) {
            Ok(d) => Ok(Some((spec_filename(ResType::Image(file_role)), d))),
            Err(e) => Err(e),
        },
        _ => Ok(None),
    }
}

/// An optional file as a (possibly empty) file list.
pub open spec fn opt_file_seq(o: Option<(Seq<char>, Seq<u8>)>) -> Seq<(Seq<char>, Seq<u8>)> {
    match o {
        Some(f) => seq![f],
        None => Seq::empty(),
    }
}

/// The combined hold files: the normal variant (end, body, head), then the
/// highlighted variant (end, bodyHL, headHL); the end cap is shared.
pub open spec fn spec_combined_files(assets: Seq<(ResType, Seq<u8>)>) -> Result<
    Seq<(Seq<char>, Seq<u8>)>,
    PackError,
> {
    match spec_one_combined(
        assets,
        ImageResType::Hold,
        ImageResType::HoldHead,
        ImageResType::CombinedHold,
    ) {
        Err(e) => Err(e),
        Ok(first) => match spec_one_combined(
            assets,
            ImageResType::HoldHL,
            ImageResType::HoldHeadHL,
            ImageResType::CombinedHoldHL,
        ) {
            Err(e) => Err(e),
            Ok(second) => Ok(opt_file_seq(first) + opt_file_seq(second)),
        },
    }
}

/// The descriptor document of a conversion: pack identity, the hit-effect
/// grid when a hit effect was routed, and the atlas entries the accumulated
/// pieces admit.
pub open spec fn spec_descriptor(
    name: Seq<char>,
    author: Seq<char>,
    assets: Seq<(ResType, Seq<u8>)>,
) -> Result<Seq<char>, PackError> {
    let atlas = spec_atlas(
        comp_bytes(assets, ImageResType::HoldEnd),
        comp_bytes(assets, ImageResType::HoldHead),
    );
    let atlas_mh = spec_atlas(
        comp_bytes(assets, ImageResType::HoldEnd),
        comp_bytes(assets, ImageResType::HoldHeadHL),
    );
    match (atlas, atlas_mh) {
        (Ok(a), Ok(am)) => Ok(
            spec_info_yaml_v(
                name,
                author,
                if spec_has_role(assets, ResType::Image(ImageResType::HitFX)) {
                    Some((5u32, 6u32))
                } else {
                    None
                },
                a,
                am,
                Seq::<char>::empty(),
            ),
        ),
        _ => Err(PackError::Decode),
    }
}

/// The whole conversion: the per-asset files, then the combined hold files,
/// and the descriptor document; the first error aborts the run.
pub open spec fn spec_build_pack(
    name: Seq<char>,
    author: Seq<char>,
    assets: Seq<(ResType, Seq<u8>)>,
) -> Result<(Seq<(Seq<char>, Seq<u8>)>, Seq<char>), PackError> {
    match spec_asset_files(assets) {
        Err(e) => Err(e),
        Ok(fs) => match spec_combined_files(assets) {
            Err(e) => Err(e),
            Ok(cs) => match spec_descriptor(name, author, assets) {
                Err(e) => Err(e),
                Ok(y) => Ok((fs + cs, y)),
            },
        },
    }
}

/// A hold piece is accumulated exactly when some asset has its role.
proof fn lemma_comp_bytes_iff_has_role(assets: Seq<(ResType, Seq<u8>)>, t: ImageResType)
    ensures
        comp_bytes(assets, t) is Some <==> spec_has_role(assets, ResType::Image(t)),
    decreases assets.len(),
{
    if assets.len() > 0 {
        lemma_comp_bytes_iff_has_role(assets.drop_last(), t);
        if assets.last().0 == ResType::Image(t) {
            assert(assets[assets.len() - 1].0 == ResType::Image(t));
        } else {
            if spec_has_role(assets, ResType::Image(t)) {
                let w = choose|w: int|
                    0 <= w < assets.len() && (#[trigger] assets[w]).0 == ResType::Image(t);
                assert(assets.drop_last()[w].0 == ResType::Image(t));
            }
            if spec_has_role(assets.drop_last(), ResType::Image(t)) {
                let w = choose|w: int|
                    0 <= w < assets.drop_last().len() && (#[trigger] assets.drop_last()[w]).0
                        == ResType::Image(t);
                assert(assets[w].0 == ResType::Image(t));
            }
        }
    }
}

/// A combined hold variant's file exists exactly when all three of its
/// pieces were routed.  Each variant depends only on its own body and head
/// (and the shared end cap): removing one piece suppresses that variant's
/// file and no other.
pub proof fn lemma_combined_iff_components(
    assets: Seq<(ResType, Seq<u8>)>,
    body_role: ImageResType,
    head_role: ImageResType,
    file_role: ImageResType,
)
    requires
        spec_one_combined(assets, body_role, head_role, file_role) is Ok,
    ensures
        spec_one_combined(assets, body_role, head_role, file_role)->Ok_0 is Some <==> {
            &&& spec_has_role(assets, ResType::Image(ImageResType::HoldEnd))
            &&& spec_has_role(assets, ResType::Image(body_role))
            &&& spec_has_role(assets, ResType::Image(head_role))
        },
{
    lemma_comp_bytes_iff_has_role(assets, ImageResType::HoldEnd);
    lemma_comp_bytes_iff_has_role(assets, body_role);
    lemma_comp_bytes_iff_has_role(assets, head_role);
}

/// An error among the first `i` assets is the whole routing's error.
proof fn lemma_asset_files_err_persists(assets: Seq<(ResType, Seq<u8>)>, i: int)
    requires
        0 <= i <= assets.len(),
        spec_asset_files(assets.subrange(0, i)) is Err,
    ensures
        spec_asset_files(assets) == spec_asset_files(assets.subrange(0, i)),
    decreases assets.len() - i,
{
    if i == assets.len() {
        assert(assets.subrange(0, i) =~= assets);
    } else {
        assert(assets.subrange(0, i + 1).drop_last() =~= assets.subrange(0, i));
        lemma_asset_files_err_persists(assets, i + 1);
    }
}

/// Pushing one asset extends role presence by exactly that asset's role.
proof fn lemma_has_role_push(pre: Seq<(ResType, Seq<u8>)>, a: (ResType, Seq<u8>), t: ResType)
    ensures
        spec_has_role(pre.push(a), t) == (spec_has_role(pre, t) || a.0 == t),
{
    if spec_has_role(pre.push(a), t) {
        let w = choose|w: int| 0 <= w < pre.push(a).len() && (#[trigger] pre.push(a)[w]).0 == t;
        if w < pre.len() {
            assert(pre[w].0 == t);
        }
    }
    if spec_has_role(pre, t) {
        let w = choose|w: int| 0 <= w < pre.len() && (#[trigger] pre[w]).0 == t;
        assert(pre.push(a)[w].0 == t);
    }
    if a.0 == t {
        assert(pre.push(a)[pre.len() as int].0 == t);
    }
}

/// Converts a pack: routes every asset, combines the hold pieces, derives
/// the descriptor.  The result lists every file of the converted pack in
/// write order; the descriptor document accompanies them and is written
/// last.
#[verifier::rlimit(100)]
pub fn build_pack(name: &str, author: &str, assets: Vec<FetchedAsset>) -> (r: Result<
    PackOutput,
    PackError,
>)
    ensures
        match r {
            Ok(out) => {
                &&& spec_build_pack(name@, author@, assets_view(assets@)) matches Ok(expect)
                    && files_view(out.files@) == expect.0 && out.info_yml@ == expect.1
            },
            Err(e) => spec_build_pack(name@, author@, assets_view(assets@)) == Err::<
                (Seq<(Seq<char>, Seq<u8>)>, Seq<char>),
                PackError,
            >(e),
        },
{
    let ghost av = assets_view(assets@);
    let mut files: Vec<OutputFile> = Vec::new();
    let mut comps = HoldComponents {
        hold_end: None,
        hold: None,
        hold_head: None,
        hold_hl: None,
        hold_head_hl: None,
    };
    let mut has_hit_fx = false;
    let n = assets.len();
    proof {
        assert(av.subrange(0, 0) =~= Seq::<(ResType, Seq<u8>)>::empty());
        assert(files_view(files@) =~= Seq::<(Seq<char>, Seq<u8>)>::empty());
    }
    for idx in 0..n
        invariant
            n == assets@.len(),
            av == assets_view(assets@),
            av.len() == n,
            opt_bytes(comps.hold_end) == comp_bytes(
                av.subrange(0, idx as int),
                ImageResType::HoldEnd,
            ),
            opt_bytes(comps.hold) == comp_bytes(av.subrange(0, idx as int), ImageResType::Hold),
            opt_bytes(comps.hold_head) == comp_bytes(
                av.subrange(0, idx as int),
                ImageResType::HoldHead,
            ),
            opt_bytes(comps.hold_hl) == comp_bytes(
                av.subrange(0, idx as int),
                ImageResType::HoldHL,
            ),
            opt_bytes(comps.hold_head_hl) == comp_bytes(
                av.subrange(0, idx as int),
                ImageResType::HoldHeadHL,
            ),
            has_hit_fx == spec_has_role(
                av.subrange(0, idx as int),
                ResType::Image(ImageResType::HitFX),
            ),
            spec_asset_files(av.subrange(0, idx as int)) == Ok::<
                Seq<(Seq<char>, Seq<u8>)>,
                PackError,
            >(files_view(files@)),
    {
        let asset = &assets[idx];
        let t = asset.res_type;
        proof {
            assert(av[idx as int] == asset_view(assets@[idx as int]));
            assert(av.subrange(0, idx + 1).drop_last() =~= av.subrange(0, idx as int));
            assert(av.subrange(0, idx + 1) =~= av.subrange(0, idx as int).push(av[idx as int]));
            lemma_has_role_push(
                av.subrange(0, idx as int),
                av[idx as int],
                ResType::Image(ImageResType::HitFX),
            );
        }
        let ghost files0 = files_view(files@);
        match t {
            ResType::Image(ImageResType::HitFX) => {
                let data = match hit_fx_convector(asset.content.as_slice()) {
                    Ok(d) => d,
                    Err(e) => {
                        proof {
                            lemma_asset_files_err_persists(av, idx + 1);
                        }
                        return Err(e);
                    },
                };
                let fname = get_filename(&t).to_owned();
                files.push(OutputFile { filename: fname, data });
                has_hit_fx = true;
                proof {
                    assert(files_view(files@) =~= files0.push(
                        (spec_filename(t), spec_hit_fx(av[idx as int].1)->Ok_0),
                    ));
                }
            },
            ResType::Image(ImageResType::HoldEnd) => {
                comps.hold_end = Some(slice_to_vec(asset.content.as_slice()));
            },
            ResType::Image(ImageResType::Hold) => {
                comps.hold = Some(slice_to_vec(asset.content.as_slice()));
            },
            ResType::Image(ImageResType::HoldHead) => {
                comps.hold_head = Some(slice_to_vec(asset.content.as_slice()));
            },
            ResType::Image(ImageResType::HoldHL) => {
                comps.hold_hl = Some(slice_to_vec(asset.content.as_slice()));
            },
            ResType::Image(ImageResType::HoldHeadHL) => {
                comps.hold_head_hl = Some(slice_to_vec(asset.content.as_slice()));
            },
            _ => {
                let fname = get_filename(&t).to_owned();
                let data = slice_to_vec(asset.content.as_slice());
                files.push(OutputFile { filename: fname, data });
                proof {
                    assert(files_view(files@) =~= files0.push(
                        (spec_filename(t), av[idx as int].1),
                    ));
                }
            },
        }
    }
    proof {
        assert(av.subrange(0, n as int) =~= av);
    }
    if let (Some(end), Some(body), Some(head)) = (&comps.hold_end, &comps.hold, &comps.hold_head) {
        let ghost files1 = files_view(files@);
        let data = match combine_hold_images(
            end.as_slice(),
            body.as_slice(),
            head.as_slice(),
        ) {
            Ok(d) => d,
            Err(e) => {
                return Err(e);
            },
        };
        let fname = get_filename(&ResType::Image(ImageResType::CombinedHold)).to_owned();
        files.push(OutputFile { filename: fname, data });
        proof {
            assert(files_view(files@) =~= files1.push(
                (
                    spec_filename(ResType::Image(ImageResType::CombinedHold)),
                    spec_combine(end@, body@, head@)->Ok_0,
                ),
            ));
        }
    }
    if let (Some(end), Some(body), Some(head)) = (
        &comps.hold_end,
        &comps.hold_hl,
        &comps.hold_head_hl,
    ) {
        let ghost files2 = files_view(files@);
        let data = match combine_hold_images(
            end.as_slice(),
            body.as_slice(),
            head.as_slice(),
        ) {
            Ok(d) => d,
            Err(e) => {
                return Err(e);
            },
        };
        let fname = get_filename(&ResType::Image(ImageResType::CombinedHoldHL)).to_owned();
        files.push(OutputFile { filename: fname, data });
        proof {
            assert(files_view(files@) =~= files2.push(
                (
                    spec_filename(ResType::Image(ImageResType::CombinedHoldHL)),
                    spec_combine(end@, body@, head@)->Ok_0,
                ),
            ));
        }
    }
    let info = match generate_respack_info(name.to_owned(), author.to_owned(), has_hit_fx, &comps) {
        Ok(i) => i,
        Err(e) => {
            return Err(e);
        },
    };
    let info_yml = render_respack_info(&info);
    proof {
        assert(spec_info_yaml(info) == spec_descriptor(name@, author@, av)->Ok_0);
    }
    Ok(PackOutput { files, info_yml })
}

} // verus!
