//! Animation channel names for skeleton bones, and the map from each bone
//! to the indices of its animation channels.
//!
//! Bone `i` is animated through ten channels named `node_{i}.{suffix}`,
//! with the suffixes `translation.{x,y,z}`, `rotation.{x,y,z,w}` and
//! `scale.{x,y,z}`. Both structures are built once per skeleton so that
//! per-frame sampling neither formats nor hashes names.
use vstd::prelude::*;

verus! {

/// The decimal digit character for `d`.
pub open spec fn digit_char(d: nat) -> char {
    (48 + d) as char
}

/// The decimal representation of `n`, without leading zeros.
pub open spec fn decimal(n: nat) -> Seq<char>
    decreases n,
{
    if n < 10 {
        seq![digit_char(n)]
    } else {
        decimal(n / 10).push(digit_char(n % 10))
    }
}

/// The name of channel `suffix` of bone `bone`: `node_{bone}.{suffix}`.
pub open spec fn property_name(bone: nat, suffix: Seq<char>) -> Seq<char> {
    "node_"@ + decimal(bone) + "."@ + suffix
}

/// The suffix of channel `j` in the order `tx, ty, tz, rx, ry, rz, rw, sx,
/// sy, sz`.
pub open spec fn channel_suffix(j: int) -> Seq<char> {
    if j == 0 {
        "translation.x"@
    } else if j == 1 {
        "translation.y"@
    } else if j == 2 {
        "translation.z"@
    } else if j == 3 {
        "rotation.x"@
    } else if j == 4 {
        "rotation.y"@
    } else if j == 5 {
        "rotation.z"@
    } else if j == 6 {
        "rotation.w"@
    } else if j == 7 {
        "scale.x"@
    } else if j == 8 {
        "scale.y"@
    } else {
        "scale.z"@
    }
}

/// The ten channel slots of a bone, in order: translation x, y, z; rotation
/// x, y, z, w; scale x, y, z.
pub proof fn lemma_channel_slots()
    ensures
        channel_suffix(0) == "translation.x"@,
        channel_suffix(1) == "translation.y"@,
        channel_suffix(2) == "translation.z"@,
        channel_suffix(3) == "rotation.x"@,
        channel_suffix(4) == "rotation.y"@,
        channel_suffix(5) == "rotation.z"@,
        channel_suffix(6) == "rotation.w"@,
        channel_suffix(7) == "scale.x"@,
        channel_suffix(8) == "scale.y"@,
        channel_suffix(9) == "scale.z"@,
{
}

/// The one-character string for digit `d`.
fn digit_str(d: usize) -> (r: &'static str)
    requires
        d < 10,
    ensures
        r@ == seq![digit_char(d as nat)],
{
    proof {
        reveal_strlit("0");
        reveal_strlit("1");
        reveal_strlit("2");
        reveal_strlit("3");
        reveal_strlit("4");
        reveal_strlit("5");
        reveal_strlit("6");
        reveal_strlit("7");
        reveal_strlit("8");
        reveal_strlit("9");
    }
    if d == 0 {
        "0"
    } else if d == 1 {
        "1"
    } else if d == 2 {
        "2"
    } else if d == 3 {
        "3"
    } else if d == 4 {
        "4"
    } else if d == 5 {
        "5"
    } else if d == 6 {
        "6"
    } else if d == 7 {
        "7"
    } else if d == 8 {
        "8"
    } else {
        "9"
    }
}

/// Append the decimal representation of `n` to `s`.
pub(crate) fn push_decimal(s: &mut String, n: usize)
    ensures
        final(s)@ == old(s)@ + decimal(n as nat),
    decreases n,
{
    if n < 10 {
        s.append(digit_str(n));
    } else {
        push_decimal(s, n / 10);
        s.append(digit_str(n % 10));
        proof {
            assert(old(s)@ + decimal((n / 10) as nat) + seq![digit_char((n % 10) as nat)] =~= old(s)@ + decimal(n as nat));
        }
    }
}

/// The channel name `node_{bone}.{suffix}`.
pub fn make_property_name(bone: usize, suffix: &str) -> (r: String)
    ensures
        r@ == property_name(bone as nat, suffix@),
{
    let mut s = String::from_str("node_");
    push_decimal(&mut s, bone);
    s.append(".");
    s.append(suffix);
    proof {
        assert(s@ =~= property_name(bone as nat, suffix@));
    }
    s
}

/// Pre-computed property name strings for a single bone (10 channels).
#[derive(Debug, Clone)]
pub struct BonePropertyNames {
    /// `node_{i}.translation.{x,y,z}`.
    pub translation: [String; 3],
    /// `node_{i}.rotation.{x,y,z,w}`.
    pub rotation: [String; 4],
    /// `node_{i}.scale.{x,y,z}`.
    pub scale: [String; 3],
}

impl BonePropertyNames {
    /// The channel names of bone `bone_idx`.
    pub fn new(bone_idx: usize) -> (r: Self)
        ensures
            forall|j: int| 0 <= j < 3 ==> #[trigger] r.translation[j]@ == property_name(bone_idx as nat, channel_suffix(j)),
            forall|j: int| 0 <= j < 4 ==> #[trigger] r.rotation[j]@ == property_name(bone_idx as nat, channel_suffix(3 + j)),
            forall|j: int| 0 <= j < 3 ==> #[trigger] r.scale[j]@ == property_name(bone_idx as nat, channel_suffix(7 + j)),
            r.translation[0]@ == property_name(bone_idx as nat, "translation.x"@),
            r.translation[1]@ == property_name(bone_idx as nat, "translation.y"@),
            r.translation[2]@ == property_name(bone_idx as nat, "translation.z"@),
            r.rotation[0]@ == property_name(bone_idx as nat, "rotation.x"@),
            r.rotation[1]@ == property_name(bone_idx as nat, "rotation.y"@),
            r.rotation[2]@ == property_name(bone_idx as nat, "rotation.z"@),
            r.rotation[3]@ == property_name(bone_idx as nat, "rotation.w"@),
            r.scale[0]@ == property_name(bone_idx as nat, "scale.x"@),
            r.scale[1]@ == property_name(bone_idx as nat, "scale.y"@),
            r.scale[2]@ == property_name(bone_idx as nat, "scale.z"@),
    {
        let r = BonePropertyNames {
            translation: [
                make_property_name(bone_idx, "translation.x"),
                make_property_name(bone_idx, "translation.y"),
                make_property_name(bone_idx, "translation.z"),
            ],
            rotation: [
                make_property_name(bone_idx, "rotation.x"),
                make_property_name(bone_idx, "rotation.y"),
                make_property_name(bone_idx, "rotation.z"),
                make_property_name(bone_idx, "rotation.w"),
            ],
            scale: [
                make_property_name(bone_idx, "scale.x"),
                make_property_name(bone_idx, "scale.y"),
                make_property_name(bone_idx, "scale.z"),
            ],
        };
        r
    }
}


/// `r` is the position of the first channel whose target is `name`, or
/// `None` when no channel targets it.
pub open spec fn is_first_match(targets: Seq<String>, name: Seq<char>, r: Option<usize>) -> bool {
    match r {
        Some(p) => p < targets.len() && targets[p as int]@ == name && forall|q: int| 0 <= q < p ==> #[trigger] targets[q]@ != name,
        None => forall|q: int| 0 <= q < targets.len() ==> #[trigger] targets[q]@ != name,
    }
}

/// Position of the first entry of `targets` equal to `name`.
fn find_channel(targets: &Vec<String>, name: &String) -> (r: Option<usize>)
    ensures
        is_first_match(targets@, name@, r),
{
    let mut k: usize = 0;
    while k < targets.len()
        invariant
            k <= targets@.len(),
            forall|q: int| 0 <= q < k ==> #[trigger] targets@[q]@ != name@,
        decreases targets@.len() - k,
    {
        if targets[k].eq(name) {
            return Some(k);
        }
        k = k + 1;
    }
    None
}

/// The suffix of channel `j` (see [`channel_suffix`]).
fn suffix_str(j: usize) -> (r: &'static str)
    requires
        j < 10,
    ensures
        r@ == channel_suffix(j as int),
{
    if j == 0 {
        "translation.x"
    } else if j == 1 {
        "translation.y"
    } else if j == 2 {
        "translation.z"
    } else if j == 3 {
        "rotation.x"
    } else if j == 4 {
        "rotation.y"
    } else if j == 5 {
        "rotation.z"
    } else if j == 6 {
        "rotation.w"
    } else if j == 7 {
        "scale.x"
    } else if j == 8 {
        "scale.y"
    } else {
        "scale.z"
    }
}

/// Pre-computed channel index map for a (skeleton, animation) pair: for
/// each bone, the indices of its ten channels.
#[derive(Debug, Clone)]
pub struct BoneChannelMap {
    /// For each bone: `[tx, ty, tz, rx, ry, rz, rw, sx, sy, sz]` channel
    /// indices. `None` means that channel does not exist in this animation.
    pub channels: Vec<[Option<usize>; 10]>,
}

impl BoneChannelMap {
    /// Build the channel map for a skeleton of `bone_count` bones and an
    /// animation whose channels target the properties `channel_targets`, in
    /// channel order. Each entry is the first channel that targets that
    /// bone's property.
    pub fn build(bone_count: usize, channel_targets: &Vec<String>) -> (r: Self)
        ensures
            r.channels@.len() == bone_count,
            forall|b: int, j: int|
                0 <= b < bone_count && 0 <= j < 10 ==> is_first_match(
                    channel_targets@,
                    property_name(b as nat, channel_suffix(j)),
                    #[trigger] r.channels@[b][j],
                ),
            forall|b: int| 0 <= b < bone_count ==> is_first_match(channel_targets@, property_name(b as nat, "translation.x"@), #[trigger] r.channels@[b][0]),
            forall|b: int| 0 <= b < bone_count ==> is_first_match(channel_targets@, property_name(b as nat, "translation.y"@), #[trigger] r.channels@[b][1]),
            forall|b: int| 0 <= b < bone_count ==> is_first_match(channel_targets@, property_name(b as nat, "translation.z"@), #[trigger] r.channels@[b][2]),
            forall|b: int| 0 <= b < bone_count ==> is_first_match(channel_targets@, property_name(b as nat, "rotation.x"@), #[trigger] r.channels@[b][3]),
            forall|b: int| 0 <= b < bone_count ==> is_first_match(channel_targets@, property_name(b as nat, "rotation.y"@), #[trigger] r.channels@[b][4]),
            forall|b: int| 0 <= b < bone_count ==> is_first_match(channel_targets@, property_name(b as nat, "rotation.z"@), #[trigger] r.channels@[b][5]),
            forall|b: int| 0 <= b < bone_count ==> is_first_match(channel_targets@, property_name(b as nat, "rotation.w"@), #[trigger] r.channels@[b][6]),
            forall|b: int| 0 <= b < bone_count ==> is_first_match(channel_targets@, property_name(b as nat, "scale.x"@), #[trigger] r.channels@[b][7]),
            forall|b: int| 0 <= b < bone_count ==> is_first_match(channel_targets@, property_name(b as nat, "scale.y"@), #[trigger] r.channels@[b][8]),
            forall|b: int| 0 <= b < bone_count ==> is_first_match(channel_targets@, property_name(b as nat, "scale.z"@), #[trigger] r.channels@[b][9]),
    {
        let mut channels: Vec<[Option<usize>; 10]> = Vec::new();
        let mut b: usize = 0;
        while b < bone_count
            invariant
                b <= bone_count,
                channels@.len() == b,
                forall|bb: int, j: int|
                    0 <= bb < b && 0 <= j < 10 ==> is_first_match(
                        channel_targets@,
                        property_name(bb as nat, channel_suffix(j)),
                        #[trigger] channels@[bb][j],
                    ),
            decreases bone_count - b,
        {
            let mut entry: [Option<usize>; 10] = [None; 10];
            let mut j: usize = 0;
            while j < 10
                invariant
                    j <= 10,
                    forall|jj: int| 0 <= jj < j ==> is_first_match(
                        channel_targets@,
                        property_name(b as nat, channel_suffix(jj)),
                        #[trigger] entry[jj],
                    ),
                decreases 10 - j,
            {
                let name = make_property_name(b, suffix_str(j));
                let found = find_channel(channel_targets, &name);
                entry[j] = found;
                j = j + 1;
            }
            channels.push(entry);
            b = b + 1;
        }
        BoneChannelMap { channels }
    }
}

} // verus!
