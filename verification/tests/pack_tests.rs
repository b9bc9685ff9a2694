//! The pack builder end to end, and the descriptor document.

use ptonlineres2prpr::codec::PackError;
use ptonlineres2prpr::descriptor::{
    generate_respack_info, render_respack_info, u32_to_dec, yaml_quote, HoldComponents,
    ResPackInfo,
};
use ptonlineres2prpr::pack::{build_pack, FetchedAsset, PackOutput};
use ptonlineres2prpr::roles::{ImageResType, ResType};

fn png_of(img: image::RgbaImage) -> Vec<u8> {
    let mut out = Vec::new();
    let enc = image::codecs::png::PngEncoder::new(&mut out);
    image::ImageEncoder::write_image(
        enc,
        img.as_raw(),
        img.width(),
        img.height(),
        image::ExtendedColorType::Rgba8,
    )
    .expect("png encoding");
    out
}

fn colored_png(w: u32, h: u32, rgba: [u8; 4]) -> Vec<u8> {
    let mut img = image::RgbaImage::new(w, h);
    for p in img.pixels_mut() {
        *p = image::Rgba(rgba);
    }
    png_of(img)
}

fn strip_png(w: u32, h: u32) -> Vec<u8> {
    let mut img = image::RgbaImage::new(w, h);
    for y in 0..h {
        for x in 0..w {
            img.put_pixel(x, y, image::Rgba([x as u8, y as u8, 0, 255]));
        }
    }
    png_of(img)
}

fn asset(role: ImageResType, content: Vec<u8>) -> FetchedAsset {
    FetchedAsset { res_type: ResType::Image(role), content }
}

fn filenames(out: &PackOutput) -> Vec<&str> {
    out.files.iter().map(|f| f.filename.as_str()).collect()
}

fn hold_pieces() -> (Vec<u8>, Vec<u8>, Vec<u8>) {
    (
        colored_png(50, 10, [255, 0, 0, 255]),
        colored_png(50, 20, [0, 255, 0, 255]),
        colored_png(50, 15, [0, 0, 255, 255]),
    )
}

#[test]
fn demo_pack_end_to_end() {
    let (end, body, head) = hold_pieces();
    let assets = vec![
        asset(ImageResType::Tap, b"tap-bytes".to_vec()),
        asset(ImageResType::HoldEnd, end),
        asset(ImageResType::Hold, body),
        asset(ImageResType::HoldHead, head),
    ];
    let out = build_pack("Demo", "A", assets).expect("conversion succeeds");
    assert_eq!(filenames(&out), ["click.png", "hold.png"]);
    assert_eq!(out.files[0].data, b"tap-bytes");
    let combined = image::load_from_memory(&out.files[1].data).expect("hold.png decodes");
    assert_eq!((combined.width(), combined.height()), (50, 45));
    let rgba = combined.to_rgba8();
    assert_eq!(*rgba.get_pixel(0, 0), image::Rgba([255, 0, 0, 255]));
    assert_eq!(*rgba.get_pixel(49, 29), image::Rgba([0, 255, 0, 255]));
    assert_eq!(*rgba.get_pixel(25, 44), image::Rgba([0, 0, 255, 255]));
    assert!(out.info_yml.contains("name: 'Demo'"));
    assert!(out.info_yml.contains("author: 'A'"));
    assert!(out.info_yml.contains("holdAtlas: [10, 15]"));
    assert!(!out.info_yml.contains("hitFx"));
    assert!(!out.info_yml.contains("holdAtlasMH"));
}

#[test]
fn hit_fx_only_pack() {
    let assets = vec![asset(ImageResType::HitFX, strip_png(40, 90))];
    let out = build_pack("P", "Q", assets).expect("conversion succeeds");
    assert_eq!(filenames(&out), ["hit_fx.png"]);
    let fx = image::load_from_memory(&out.files[0].data).expect("hit_fx.png decodes");
    assert_eq!((fx.width(), fx.height()), (200, 18));
    assert!(out.info_yml.contains("hitFx: [5, 6]"));
    assert!(!out.info_yml.contains("holdAtlas"));
}

#[test]
fn combined_outputs_require_their_full_triple() {
    let full = || {
        vec![
            asset(ImageResType::HoldEnd, colored_png(8, 2, [1, 1, 1, 255])),
            asset(ImageResType::Hold, colored_png(8, 3, [2, 2, 2, 255])),
            asset(ImageResType::HoldHead, colored_png(8, 4, [3, 3, 3, 255])),
            asset(ImageResType::HoldHL, colored_png(8, 3, [4, 4, 4, 255])),
            asset(ImageResType::HoldHeadHL, colored_png(8, 4, [5, 5, 5, 255])),
        ]
    };
    let out = build_pack("N", "A", full()).expect("conversion succeeds");
    assert_eq!(filenames(&out), ["hold.png", "hold_mh.png"]);

    // Without the normal body only the highlighted combine is produced.
    let mut missing_body = full();
    missing_body.remove(1);
    let out = build_pack("N", "A", missing_body).expect("conversion succeeds");
    assert_eq!(filenames(&out), ["hold_mh.png"]);
    // The atlas pair needs only end and head, not the body.
    assert!(out.info_yml.contains("holdAtlas: [2, 4]"));

    // Without the highlighted head only the normal combine is produced.
    let mut missing_hl_head = full();
    missing_hl_head.remove(4);
    let out = build_pack("N", "A", missing_hl_head).expect("conversion succeeds");
    assert_eq!(filenames(&out), ["hold.png"]);
    assert!(!out.info_yml.contains("holdAtlasMH"));
}

#[test]
fn atlas_needs_both_end_and_head() {
    let end_only = HoldComponents {
        hold_end: Some(colored_png(6, 9, [0, 0, 0, 255])),
        hold: None,
        hold_head: None,
        hold_hl: None,
        hold_head_hl: None,
    };
    let info = generate_respack_info("n".to_string(), "a".to_string(), false, &end_only)
        .expect("descriptor succeeds");
    assert_eq!(info.hold_atlas, None);
    assert_eq!(info.hold_atlas_mh, None);
    assert_eq!(info.hit_fx, None);

    let end_and_head = HoldComponents {
        hold_end: Some(colored_png(6, 9, [0, 0, 0, 255])),
        hold: None,
        hold_head: Some(colored_png(6, 4, [0, 0, 0, 255])),
        hold_hl: None,
        hold_head_hl: None,
    };
    let info = generate_respack_info("n".to_string(), "a".to_string(), true, &end_and_head)
        .expect("descriptor succeeds");
    assert_eq!(info.hold_atlas, Some((9, 4)));
    assert_eq!(info.hold_atlas_mh, None);
    assert_eq!(info.hit_fx, Some((5, 6)));
}

#[test]
fn empty_manifest_yields_descriptor_only() {
    let out = build_pack("Empty", "Nobody", Vec::new()).expect("conversion succeeds");
    assert!(out.files.is_empty());
    assert_eq!(out.info_yml, "name: 'Empty'\nauthor: 'Nobody'\ndescription: ''\n");
}

#[test]
fn undecodable_asset_aborts_the_run() {
    let assets = vec![asset(ImageResType::HitFX, b"garbage".to_vec())];
    assert!(matches!(build_pack("N", "A", assets), Err(PackError::Decode)));

    let (_, body, head) = hold_pieces();
    let assets = vec![
        asset(ImageResType::HoldEnd, b"garbage".to_vec()),
        asset(ImageResType::Hold, body),
        asset(ImageResType::HoldHead, head),
    ];
    assert!(matches!(build_pack("N", "A", assets), Err(PackError::Decode)));
}

#[test]
fn decimal_rendering_is_exact() {
    assert_eq!(u32_to_dec(0), "0");
    assert_eq!(u32_to_dec(7), "7");
    assert_eq!(u32_to_dec(10), "10");
    assert_eq!(u32_to_dec(12345), "12345");
    assert_eq!(u32_to_dec(u32::MAX), "4294967295");
}

#[test]
fn quoting_doubles_quotes() {
    assert_eq!(yaml_quote("Demo"), "'Demo'");
    assert_eq!(yaml_quote(""), "''");
    assert_eq!(yaml_quote("De'mo"), "'De''mo'");
}

#[test]
fn descriptor_document_layout() {
    let info = ResPackInfo {
        name: "De'mo".to_string(),
        author: "A B".to_string(),
        hit_fx: Some((5, 6)),
        hold_atlas: Some((10, 15)),
        hold_atlas_mh: None,
        description: String::new(),
    };
    let doc = render_respack_info(&info);
    assert_eq!(
        doc,
        "name: 'De''mo'\nauthor: 'A B'\nhitFx: [5, 6]\nholdAtlas: [10, 15]\ndescription: ''\n"
    );
}

#[test]
fn descriptor_parses_as_yaml() {
    let (end, body, head) = hold_pieces();
    let assets = vec![
        asset(ImageResType::HitFX, strip_png(10, 60)),
        asset(ImageResType::HoldEnd, end),
        asset(ImageResType::Hold, body),
        asset(ImageResType::HoldHead, head),
    ];
    let out = build_pack("Demo", "A", assets).expect("conversion succeeds");
    let doc: serde_yaml::Value = serde_yaml::from_str(&out.info_yml).expect("valid yaml");
    assert_eq!(doc.get("name").and_then(|v| v.as_str()), Some("Demo"));
    assert_eq!(doc.get("author").and_then(|v| v.as_str()), Some("A"));
    assert_eq!(doc.get("description").and_then(|v| v.as_str()), Some(""));
    let atlas: Vec<u64> = doc
        .get("holdAtlas")
        .and_then(|v| v.as_sequence())
        .expect("holdAtlas is a list")
        .iter()
        .map(|v| v.as_u64().expect("atlas entries are numbers"))
        .collect();
    assert_eq!(atlas, [10, 15]);
    let fx: Vec<u64> = doc
        .get("hitFx")
        .and_then(|v| v.as_sequence())
        .expect("hitFx is a list")
        .iter()
        .map(|v| v.as_u64().expect("grid entries are numbers"))
        .collect();
    assert_eq!(fx, [5, 6]);
    assert!(doc.get("holdAtlasMH").is_none());
}
