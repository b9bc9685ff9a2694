//! The name classifier: raw manifest keys to roles, roles to filenames.

use ptonlineres2prpr::roles::{
    classify_audio, classify_image, get_filename, get_output_dir, res_name_parser, AudioResType,
    ImageResType, ResType,
};

#[test]
fn tap_variants_classify_to_tap() {
    for key in ["tap", "Tap", "TAP", "tap.png"] {
        assert_eq!(classify_image(key), Some(ImageResType::Tap), "key {key}");
    }
}

#[test]
fn unknown_keys_classify_to_no_role() {
    for key in ["", "tapp", "ta", "background", "tap.ogg", "hold.png.png", "hitsong3"] {
        assert_eq!(classify_image(key), None, "key {key}");
        assert_eq!(classify_audio(key), None, "key {key}");
    }
}

#[test]
fn every_image_variant_classifies() {
    let cases = [
        ("clickraw", ImageResType::HitFX),
        ("CLICKRAW.PNG", ImageResType::HitFX),
        ("taphl", ImageResType::TapHL),
        ("holdend", ImageResType::HoldEnd),
        ("hold", ImageResType::Hold),
        ("holdhl", ImageResType::HoldHL),
        ("holdhead", ImageResType::HoldHead),
        ("HoldHeadHL.png", ImageResType::HoldHeadHL),
        ("drag", ImageResType::Drag),
        ("draghl", ImageResType::DragHL),
        ("flick", ImageResType::Flick),
        ("flickhl.png", ImageResType::FlickHL),
    ];
    for (key, expected) in cases {
        assert_eq!(classify_image(key), Some(expected), "key {key}");
    }
}

#[test]
fn audio_variants_classify() {
    assert_eq!(classify_audio("hitsong0"), Some(AudioResType::TapHitSound));
    assert_eq!(classify_audio("HitSong1.ogg"), Some(AudioResType::DragHitSound));
    assert_eq!(classify_audio("hitsong2"), Some(AudioResType::FlickHitSound));
    assert_eq!(classify_image("hitsong0"), None);
}

#[test]
fn res_name_parser_maps_known_keys() {
    let res = vec![
        ("tap".to_string(), "u1".to_string()),
        ("mystery".to_string(), "u2".to_string()),
        ("hitsong0".to_string(), "u3".to_string()),
    ];
    let classified = res_name_parser(&res);
    assert_eq!(classified.len(), 2);
    let tap = classified
        .iter()
        .find(|(t, _)| *t == ResType::Image(ImageResType::Tap))
        .expect("tap role present");
    assert_eq!(tap.1, "u1");
    let snd = classified
        .iter()
        .find(|(t, _)| *t == ResType::Audio(AudioResType::TapHitSound))
        .expect("tap sound role present");
    assert_eq!(snd.1, "u3");
}

#[test]
fn res_name_parser_later_entry_overwrites() {
    let res = vec![
        ("tap".to_string(), "first".to_string()),
        ("TAP.png".to_string(), "second".to_string()),
    ];
    let classified = res_name_parser(&res);
    assert_eq!(classified.len(), 1);
    assert_eq!(classified[0].0, ResType::Image(ImageResType::Tap));
    assert_eq!(classified[0].1, "second");
}

#[test]
fn filenames_match_target_layout() {
    let cases = [
        (ResType::Image(ImageResType::HitFX), "hit_fx.png"),
        (ResType::Image(ImageResType::Tap), "click.png"),
        (ResType::Image(ImageResType::TapHL), "click_mh.png"),
        (ResType::Image(ImageResType::Drag), "drag.png"),
        (ResType::Image(ImageResType::DragHL), "drag_mh.png"),
        (ResType::Image(ImageResType::Flick), "flick.png"),
        (ResType::Image(ImageResType::FlickHL), "flick_mh.png"),
        (ResType::Image(ImageResType::CombinedHold), "hold.png"),
        (ResType::Image(ImageResType::CombinedHoldHL), "hold_mh.png"),
        (ResType::Image(ImageResType::HoldEnd), ""),
        (ResType::Image(ImageResType::Hold), ""),
        (ResType::Image(ImageResType::HoldHead), ""),
        (ResType::Audio(AudioResType::TapHitSound), "click.ogg"),
        (ResType::Audio(AudioResType::DragHitSound), "drag.ogg"),
        (ResType::Audio(AudioResType::FlickHitSound), "flick.ogg"),
    ];
    for (role, expected) in cases {
        assert_eq!(get_filename(&role), expected);
    }
}

#[test]
fn output_dir_joins_name() {
    assert_eq!(get_output_dir("Demo"), "output/Demo");
    assert_eq!(get_output_dir(""), "output/");
}
