//! Classification of raw manifest keys into semantic resource roles, and the
//! fixed output filename for each role.
//!
//! A raw key matches a role when it equals one of the role's two accepted name
//! variants (bare and extension-suffixed), compared case-insensitively on
//! ASCII letters.  Keys that match no variant are ignored by design.

use vstd::prelude::*;

verus! {

/// The image roles a manifest key can denote.
#[derive(Clone, Copy, Debug, PartialEq, Eq, Structural)]
pub enum ImageResType {
    HitFX,
    Tap,
    TapHL,
    HoldEnd,
    Hold,
    HoldHL,
    HoldHead,
    HoldHeadHL,
    CombinedHold,
    CombinedHoldHL,
    Drag,
    DragHL,
    Flick,
    FlickHL,
}

/// The audio roles a manifest key can denote.
#[derive(Clone, Copy, Debug, PartialEq, Eq, Structural)]
pub enum AudioResType {
    TapHitSound,
    DragHitSound,
    FlickHitSound,
}

/// A semantic role: one closed union over the two disjoint namespaces.
#[derive(Clone, Copy, Debug, PartialEq, Eq, Structural)]
pub enum ResType {
    Image(ImageResType),
    Audio(AudioResType),
}

/// The code point of `c` with ASCII upper-case letters folded to lower case.
pub open spec fn lower_code(c: char) -> u32 {
    if 65 <= c as u32 && c as u32 <= 90 {
        (c as u32 + 32) as u32
    } else {
        c as u32
    }
}

/// Case-insensitive (ASCII) equality of a key against a name variant.
pub open spec fn key_matches(key: Seq<char>, pat: Seq<char>) -> bool {
    key.len() == pat.len() && forall|i: int|
        0 <= i < key.len() ==> #[trigger] lower_code(key[i]) == lower_code(pat[i])
}

/// Compares `key` and `pat` case-insensitively on ASCII letters.
pub fn matches_ci(key: &str, pat: &str) -> (r: bool)
    ensures
        r == key_matches(key@, pat@),
{
    let klen = key.unicode_len();
    let plen = pat.unicode_len();
    if klen != plen {
        return false;
    }
    for i in 0..klen
        invariant
            klen == key@.len(),
            plen == pat@.len(),
            klen == plen,
            forall|j: int| 0 <= j < i ==> #[trigger] lower_code(key@[j]) == lower_code(pat@[j]),
    {
        let kc = key.get_char(i) as u32;
        let pc = pat.get_char(i) as u32;
        let kl = if 65 <= kc && kc <= 90 {
            kc + 32
        } else {
            kc
        };
        let pl = if 65 <= pc && pc <= 90 {
            pc + 32
        } else {
            pc
        };
        if kl != pl {
            assert(lower_code(key@[i as int]) != lower_code(pat@[i as int]));
            return false;
        }
    }
    true
}

/// The image role of a key, by the fixed ordered rule table; `None` when the
/// key matches no image name variant.
pub open spec fn spec_image_role(key: Seq<char>) -> Option<ImageResType> {
    if key_matches(key, "clickraw"@) || key_matches(key, "clickraw.png"@) {
        Some(ImageResType::HitFX)
    } else if key_matches(key, "tap"@) || key_matches(key, "tap.png"@) {
        Some(ImageResType::Tap)
    } else if key_matches(key, "taphl"@) || key_matches(key, "taphl.png"@) {
        Some(ImageResType::TapHL)
    } else if key_matches(key, "holdend"@) || key_matches(key, "holdend.png"@) {
        Some(ImageResType::HoldEnd)
    } else if key_matches(key, "hold"@) || key_matches(key, "hold.png"@) {
        Some(ImageResType::Hold)
    } else if key_matches(key, "holdhl"@) || key_matches(key, "holdhl.png"@) {
        Some(ImageResType::HoldHL)
    } else if key_matches(key, "holdhead"@) || key_matches(key, "holdhead.png"@) {
        Some(ImageResType::HoldHead)
    } else if key_matches(key, "holdheadhl"@) || key_matches(key, "holdheadhl.png"@) {
        Some(ImageResType::HoldHeadHL)
    } else if key_matches(key, "drag"@) || key_matches(key, "drag.png"@) {
        Some(ImageResType::Drag)
    } else if key_matches(key, "draghl"@) || key_matches(key, "draghl.png"@) {
        Some(ImageResType::DragHL)
    } else if key_matches(key, "flick"@) || key_matches(key, "flick.png"@) {
        Some(ImageResType::Flick)
    } else if key_matches(key, "flickhl"@) || key_matches(key, "flickhl.png"@) {
        Some(ImageResType::FlickHL)
    } else {
        None
    }
}

/// The audio role of a key; `None` when the key matches no audio name variant.
pub open spec fn spec_audio_role(key: Seq<char>) -> Option<AudioResType> {
    if key_matches(key, "hitsong0"@) || key_matches(key, "hitsong0.ogg"@) {
        Some(AudioResType::TapHitSound)
    } else if key_matches(key, "hitsong1"@) || key_matches(key, "hitsong1.ogg"@) {
        Some(AudioResType::DragHitSound)
    } else if key_matches(key, "hitsong2"@) || key_matches(key, "hitsong2.ogg"@) {
        Some(AudioResType::FlickHitSound)
    } else {
        None
    }
}

/// Classifies a raw manifest key as an image role.
pub fn classify_image(key: &str) -> (r: Option<ImageResType>)
    ensures
        r == spec_image_role(key@),
{
    if matches_ci(key, "clickraw") || matches_ci(key, "clickraw.png") {
        Some(ImageResType::HitFX)
    } else if matches_ci(key, "tap") || matches_ci(key, "tap.png") {
        Some(ImageResType::Tap)
    } else if matches_ci(key, "taphl") || matches_ci(key, "taphl.png") {
        Some(ImageResType::TapHL)
    } else if matches_ci(key, "holdend") || matches_ci(key, "holdend.png") {
        Some(ImageResType::HoldEnd)
    } else if matches_ci(key, "hold") || matches_ci(key, "hold.png") {
        Some(ImageResType::Hold)
    } else if matches_ci(key, "holdhl") || matches_ci(key, "holdhl.png") {
        Some(ImageResType::HoldHL)
    } else if matches_ci(key, "holdhead") || matches_ci(key, "holdhead.png") {
        Some(ImageResType::HoldHead)
    } else if matches_ci(key, "holdheadhl") || matches_ci(key, "holdheadhl.png") {
        Some(ImageResType::HoldHeadHL)
    } else if matches_ci(key, "drag") || matches_ci(key, "drag.png") {
        Some(ImageResType::Drag)
    } else if matches_ci(key, "draghl") || matches_ci(key, "draghl.png") {
        Some(ImageResType::DragHL)
    } else if matches_ci(key, "flick") || matches_ci(key, "flick.png") {
        Some(ImageResType::Flick)
    } else if matches_ci(key, "flickhl") || matches_ci(key, "flickhl.png") {
        Some(ImageResType::FlickHL)
    } else {
        None
    }
}

/// Classifies a raw manifest key as an audio role.
pub fn classify_audio(key: &str) -> (r: Option<AudioResType>)
    ensures
        r == spec_audio_role(key@),
{
    if matches_ci(key, "hitsong0") || matches_ci(key, "hitsong0.ogg") {
        Some(AudioResType::TapHitSound)
    } else if matches_ci(key, "hitsong1") || matches_ci(key, "hitsong1.ogg") {
        Some(AudioResType::DragHitSound)
    } else if matches_ci(key, "hitsong2") || matches_ci(key, "hitsong2.ogg") {
        Some(AudioResType::FlickHitSound)
    } else {
        None
    }
}

/// A key matches some image name variant.
pub open spec fn known_image_key(key: Seq<char>) -> bool {
    ||| key_matches(key, "clickraw"@)
    ||| key_matches(key, "clickraw.png"@)
    ||| key_matches(key, "tap"@)
    ||| key_matches(key, "tap.png"@)
    ||| key_matches(key, "taphl"@)
    ||| key_matches(key, "taphl.png"@)
    ||| key_matches(key, "holdend"@)
    ||| key_matches(key, "holdend.png"@)
    ||| key_matches(key, "hold"@)
    ||| key_matches(key, "hold.png"@)
    ||| key_matches(key, "holdhl"@)
    ||| key_matches(key, "holdhl.png"@)
    ||| key_matches(key, "holdhead"@)
    ||| key_matches(key, "holdhead.png"@)
    ||| key_matches(key, "holdheadhl"@)
    ||| key_matches(key, "holdheadhl.png"@)
    ||| key_matches(key, "drag"@)
    ||| key_matches(key, "drag.png"@)
    ||| key_matches(key, "draghl"@)
    ||| key_matches(key, "draghl.png"@)
    ||| key_matches(key, "flick"@)
    ||| key_matches(key, "flick.png"@)
    ||| key_matches(key, "flickhl"@)
    ||| key_matches(key, "flickhl.png"@)
}

/// A key matches some audio name variant.
pub open spec fn known_audio_key(key: Seq<char>) -> bool {
    ||| key_matches(key, "hitsong0"@)
    ||| key_matches(key, "hitsong0.ogg"@)
    ||| key_matches(key, "hitsong1"@)
    ||| key_matches(key, "hitsong1.ogg"@)
    ||| key_matches(key, "hitsong2"@)
    ||| key_matches(key, "hitsong2.ogg"@)
}

/// The fixed output filename of a role.  Roles that are never persisted on
/// their own (the hold pieces) have no filename.
pub open spec fn spec_filename(t: ResType) -> Seq<char> {
    match t {
        ResType::Image(img) => match img {
            ImageResType::HitFX => "hit_fx.png"@,
            ImageResType::Tap => "click.png"@,
            ImageResType::TapHL => "click_mh.png"@,
            ImageResType::Drag => "drag.png"@,
            ImageResType::DragHL => "drag_mh.png"@,
            ImageResType::Flick => "flick.png"@,
            ImageResType::FlickHL => "flick_mh.png"@,
            ImageResType::CombinedHold => "hold.png"@,
            ImageResType::CombinedHoldHL => "hold_mh.png"@,
            _ => ""@,
        },
        ResType::Audio(audio) => match audio {
            AudioResType::TapHitSound => "click.ogg"@,
            AudioResType::DragHitSound => "drag.ogg"@,
            AudioResType::FlickHitSound => "flick.ogg"@,
        },
    }
}

/// The fixed output filename of a role.
pub fn get_filename(res_type: &ResType) -> (r: &'static str)
    ensures
        r@ == spec_filename(*res_type),
{
    match res_type {
        ResType::Image(img) => match img {
            ImageResType::HitFX => "hit_fx.png",
            ImageResType::Tap => "click.png",
            ImageResType::TapHL => "click_mh.png",
            ImageResType::Drag => "drag.png",
            ImageResType::DragHL => "drag_mh.png",
            ImageResType::Flick => "flick.png",
            ImageResType::FlickHL => "flick_mh.png",
            ImageResType::CombinedHold => "hold.png",
            ImageResType::CombinedHoldHL => "hold_mh.png",
            _ => "",
        },
        ResType::Audio(audio) => match audio {
            AudioResType::TapHitSound => "click.ogg",
            AudioResType::DragHitSound => "drag.ogg",
            AudioResType::FlickHitSound => "flick.ogg",
        },
    }
}

/// The directory the converted pack is written to.
pub fn get_output_dir(name: &str) -> (r: String)
    ensures
        r@ == "output/"@ + name@,
{
    let mut r = "output/".to_owned();
    r.append(name);
    r
}

/// No two entries claim the same role.
pub open spec fn distinct_roles(s: Seq<(ResType, String)>) -> bool {
    forall|i: int, j: int| 0 <= i < j < s.len() ==> (#[trigger] s[i]).0 != (#[trigger] s[j]).0
}

/// Some entry claims role `t`.
pub open spec fn has_role(s: Seq<(ResType, String)>, t: ResType) -> bool {
    exists|i: int| 0 <= i < s.len() && (#[trigger] s[i]).0 == t
}

/// The role-to-URL mapping a pair list stands for; a later entry for a role
/// overwrites an earlier one.
pub open spec fn pairs_map(s: Seq<(ResType, String)>) -> Map<ResType, Seq<char>>
    decreases s.len(),
{
    if s.len() == 0 {
        Map::empty()
    } else {
        pairs_map(s.drop_last()).insert(s.last().0, s.last().1@)
    }
}

/// The classified mapping of a raw manifest: walking the entries in order,
/// each key contributes its image role and its audio role (when it has
/// them), a later entry overwriting an earlier one with the same role.
pub open spec fn spec_classified(res: Seq<(String, String)>) -> Map<ResType, Seq<char>>
    decreases res.len(),
{
    if res.len() == 0 {
        Map::empty()
    } else {
        let prev = spec_classified(res.drop_last());
        let kv = res.last();
        let with_img = match spec_image_role(kv.0@) {
            Some(t) => prev.insert(ResType::Image(t), kv.1@),
            None => prev,
        };
        match spec_audio_role(kv.0@) {
            Some(t) => with_img.insert(ResType::Audio(t), kv.1@),
            None => with_img,
        }
    }
}

/// A pair list's mapping holds a role exactly when some entry claims it.
proof fn lemma_pairs_map_domain(s: Seq<(ResType, String)>, t: ResType)
    ensures
        pairs_map(s).contains_key(t) <==> has_role(s, t),
    decreases s.len(),
{
    if s.len() > 0 {
        lemma_pairs_map_domain(s.drop_last(), t);
        if has_role(s.drop_last(), t) {
            let i = choose|i: int| 0 <= i < s.drop_last().len() && (#[trigger] s.drop_last()[i]).0
                == t;
            assert(s[i].0 == t);
        }
        if has_role(s, t) && s.last().0 != t {
            let i = choose|i: int| 0 <= i < s.len() && (#[trigger] s[i]).0 == t;
            assert(s.drop_last()[i].0 == t);
        }
    }
}

/// Removing the one entry of a role removes exactly that role from the
/// mapping.
proof fn lemma_pairs_map_remove(s: Seq<(ResType, String)>, i: int)
    requires
        0 <= i < s.len(),
        distinct_roles(s),
    ensures
        pairs_map(s.remove(i)) == pairs_map(s).remove(s[i].0),
    decreases s.len(),
{
    if i == s.len() - 1 {
        assert(s.remove(i) =~= s.drop_last());
        lemma_pairs_map_domain(s.drop_last(), s[i].0);
        assert(!has_role(s.drop_last(), s[i].0));
        assert(pairs_map(s.drop_last()).remove(s[i].0) =~= pairs_map(s.drop_last()));
    } else {
        assert(s.remove(i).last() == s.last());
        assert(s.remove(i).drop_last() =~= s.drop_last().remove(i));
        assert(distinct_roles(s.drop_last()));
        lemma_pairs_map_remove(s.drop_last(), i);
        assert(s.drop_last()[i] == s[i]);
        assert(s.last().0 != s[i].0);
        assert(pairs_map(s.drop_last()).remove(s[i].0).insert(s.last().0, s.last().1@)
            =~= pairs_map(s.drop_last()).insert(s.last().0, s.last().1@).remove(s[i].0));
    }
}

/// Inserts or replaces the entry of role `t`.
fn upsert_role(out: &mut Vec<(ResType, String)>, t: ResType, url: String)
    requires
        distinct_roles(old(out)@),
    ensures
        distinct_roles(final(out)@),
        pairs_map(final(out)@) == pairs_map(old(out)@).insert(t, url@),
{
    let ghost s0 = out@;
    let n = out.len();
    let mut found: Option<usize> = None;
    for idx in 0..n
        invariant
            out@ == s0,
            n == s0.len(),
            match found {
                Some(f) => f < idx && s0[f as int].0 == t,
                None => forall|j: int| 0 <= j < idx ==> (#[trigger] s0[j]).0 != t,
            },
    {
        if found.is_none() {
            if out[idx].0 == t {
                found = Some(idx);
            }
        }
    }
    match found {
        Some(f) => {
            out.remove(f);
            proof {
                lemma_pairs_map_remove(s0, f as int);
                assert(forall|j: int, k: int|
                    0 <= j < k < out@.len() ==> (#[trigger] out@[j]).0 != (#[trigger] out@[k]).0);
                lemma_pairs_map_domain(out@, t);
                assert(!has_role(out@, t)) by {
                    if has_role(out@, t) {
                        let w = choose|w: int| 0 <= w < out@.len() && (#[trigger] out@[w]).0 == t;
                        if w < f {
                            assert(s0[w].0 == t);
                        } else {
                            assert(s0[w + 1].0 == t);
                        }
                    }
                }
            }
            let ghost s1 = out@;
            out.push((t, url));
            proof {
                assert(out@.drop_last() =~= s1);
                assert(forall|j: int| 0 <= j < s1.len() ==> (#[trigger] s1[j]).0 != t);
                assert(pairs_map(out@) =~= pairs_map(s0).insert(t, url@));
            }
        },
        None => {
            proof {
                lemma_pairs_map_domain(s0, t);
            }
            out.push((t, url));
            proof {
                assert(out@.drop_last() =~= s0);
                assert(forall|j: int| 0 <= j < s0.len() ==> (#[trigger] s0[j]).0 != t);
            }
        },
    }
}

/// Classifies every entry of a raw manifest's resource list.  Unrecognized
/// keys contribute nothing; a key may contribute both an image and an audio
/// role; for two keys with one role the later entry wins.
pub fn res_name_parser(res: &Vec<(String, String)>) -> (r: Vec<(ResType, String)>)
    ensures
        distinct_roles(r@),
        pairs_map(r@) == spec_classified(res@),
{
    let mut out: Vec<(ResType, String)> = Vec::new();
    let n = res.len();
    for idx in 0..n
        invariant
            n == res@.len(),
            distinct_roles(out@),
            pairs_map(out@) == spec_classified(res@.subrange(0, idx as int)),
    {
        let kv = &res[idx];
        if let Some(t) = classify_image(kv.0.as_str()) {
            upsert_role(&mut out, ResType::Image(t), kv.1.clone());
        }
        if let Some(t) = classify_audio(kv.0.as_str()) {
            upsert_role(&mut out, ResType::Audio(t), kv.1.clone());
        }
        proof {
            assert(res@.subrange(0, idx + 1).drop_last() =~= res@.subrange(0, idx as int));
            assert(res@.subrange(0, idx + 1).last() == res@[idx as int]);
        }
    }
    proof {
        assert(res@.subrange(0, n as int) =~= res@);
    }
    out
}

/// A raw key outside every known name variant set classifies to no role at
/// all, in either namespace: unrecognized manifest entries are dropped.
pub proof fn lemma_unknown_key_no_role(key: Seq<char>)
    requires
        !known_image_key(key),
        !known_audio_key(key),
    ensures
        spec_image_role(key) is None,
        spec_audio_role(key) is None,
{
}

/// Conversely, every key inside a variant set gets a role of the matching
/// family: the classifier drops nothing it has a rule for.
pub proof fn lemma_known_key_has_role(key: Seq<char>)
    ensures
        known_image_key(key) ==> spec_image_role(key) is Some,
        known_audio_key(key) ==> spec_audio_role(key) is Some,
{
}

} // verus!
