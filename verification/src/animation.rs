//! Writing animations into a glTF document: per animated node, in node order, one sampler and
//! one channel for each of its translation, rotation and scale tracks that has keyframes, with
//! the keyframe times and values stored as accessors in the binary buffer.
use vstd::prelude::*;

use crate::anim::{interpolation_name, interpolation_name_spec, Interpolation};
use crate::container::padded;
use crate::gltf::{AnimationChannel, AnimationChannelTarget, AnimationSampler, BufferView, COMPONENT_TYPE_FLOAT};
use crate::writer::{view_after, words_le, Accessor, AccessorKind, BinWriter};

verus! {

/// The node property a track drives.
#[derive(Copy, Clone, PartialEq, Eq, Structural, Debug)]
pub enum TrsPath {
    Translation,
    Rotation,
    Scale,
}

/// A keyframe track ready for the binary buffer: keyframe times and output values as the bit
/// patterns of `f32` values, the smallest and largest time, and the number of outputs.
pub struct TrackData {
    pub times: Vec<u32>,
    pub time_min: u32,
    pub time_max: u32,
    pub values: Vec<u32>,
    pub count: u32,
    pub interpolation: Option<Interpolation>,
}

/// The tracks of one animated node.
pub struct NodeTracks {
    pub node: u32,
    pub translation: Option<TrackData>,
    pub rotation: Option<TrackData>,
    pub scale: Option<TrackData>,
}

/// One exported channel: its node, the property it drives and its track.
pub type Entry = (u32, TrsPath, TrackData);

/// The glTF name of a channel's target property.
pub open spec fn path_name(p: TrsPath) -> Seq<char> {
    match p {
        TrsPath::Translation => "translation"@,
        TrsPath::Rotation => "rotation"@,
        TrsPath::Scale => "scale"@,
    }
}

/// The element type of a property's values: quaternions for rotation, vectors otherwise.
pub open spec fn path_kind(p: TrsPath) -> AccessorKind {
    match p {
        TrsPath::Rotation => AccessorKind::Vec4,
        _ => AccessorKind::Vec3,
    }
}

/// The channel of `track` for `node`'s property `path`, if the track has keyframes (a track
/// without any would need an empty accessor, which glTF forbids).
pub open spec fn track_entry(node: u32, path: TrsPath, track: Option<TrackData>) -> Seq<Entry> {
    match track {
        Some(t) => if t.times@.len() > 0 {
            seq![(node, path, t)]
        } else {
            Seq::empty()
        },
        None => Seq::empty(),
    }
}

/// The channels of one node: translation, rotation, then scale.
pub open spec fn node_entries(t: NodeTracks) -> Seq<Entry> {
    track_entry(t.node, TrsPath::Translation, t.translation) + track_entry(t.node, TrsPath::Rotation, t.rotation)
        + track_entry(t.node, TrsPath::Scale, t.scale)
}

/// The channels of the nodes `tracks[order[0]], tracks[order[1]], ...`, one node after the other.
pub open spec fn entries_in(tracks: Seq<NodeTracks>, order: Seq<usize>) -> Seq<Entry>
    decreases order.len(),
{
    if order.len() == 0 {
        Seq::empty()
    } else {
        entries_in(tracks, order.drop_last()) + node_entries(tracks[order.last() as int])
    }
}

/// `order` lists every position of `keys` once, by nondecreasing key.
pub open spec fn sorted_order(keys: Seq<u32>, order: Seq<usize>) -> bool {
    &&& order.len() == keys.len()
    &&& order.no_duplicates()
    &&& forall|i: int| 0 <= i < order.len() ==> #[trigger] order[i] < keys.len()
    &&& forall|i: int, j: int| 0 <= i < j < order.len() ==> keys[#[trigger] order[i] as int] <= keys[#[trigger] order[j] as int]
}

/// The binary buffer `bytes` with a track's times, then its values, appended, each 4-aligned.
pub open spec fn track_bytes(bytes: Seq<u8>, t: TrackData) -> Seq<u8> {
    padded(padded(bytes, 0) + words_le(t.times@), 0) + words_le(t.values@)
}

/// The binary buffer `bytes` with the tracks of `es` appended, one after the other.
pub open spec fn bytes_after(bytes: Seq<u8>, es: Seq<Entry>) -> Seq<u8>
    decreases es.len(),
{
    if es.len() == 0 {
        bytes
    } else {
        track_bytes(bytes_after(bytes, es.drop_last()), es.last().2)
    }
}

/// `c` targets `path` of `node` through sampler `sampler`.
pub open spec fn channel_is(c: AnimationChannel, sampler: int, node: u32, path: TrsPath) -> bool {
    &&& c.sampler == sampler as u32
    &&& c.target.node == node
    &&& c.target.path@ == path_name(path)
}

/// `s` reads times from accessor `input` and values from accessor `output`, with the glTF name
/// of `interpolation` (none for linear).
pub open spec fn sampler_is(s: AnimationSampler, input: int, output: int, interpolation: Option<Interpolation>) -> bool {
    &&& s.input == input as u32
    &&& s.output == output as u32
    &&& match s.interpolation {
        Some(n) => interpolation_name_spec(interpolation) == Some(n@),
        None => interpolation_name_spec(interpolation) is None,
    }
}

/// `a` is the keyframe-time accessor of `t` over buffer view `view`: scalar floats, bounded by
/// the smallest and largest time.
pub open spec fn time_accessor_is(a: Accessor, view: int, t: TrackData) -> bool {
    &&& a.buffer_view == view as u32
    &&& a.component_type == COMPONENT_TYPE_FLOAT
    &&& a.count == t.times@.len() as u32
    &&& a.kind == AccessorKind::Scalar
    &&& a.min matches Some(m) && m@ == seq![t.time_min]
    &&& a.max matches Some(m) && m@ == seq![t.time_max]
}

/// `a` is the value accessor of `t`, for property `path`, over buffer view `view`.
pub open spec fn value_accessor_is(a: Accessor, view: int, t: TrackData, path: TrsPath) -> bool {
    &&& a.buffer_view == view as u32
    &&& a.component_type == COMPONENT_TYPE_FLOAT
    &&& a.count == t.count
    &&& a.kind == path_kind(path)
    &&& a.min is None
    &&& a.max is None
}

/// After the channels `es` were written, starting from buffer `bytes0` with buffer views
/// `views0` and accessors `acc0`: channel `k` and sampler `k` belong to `es[k]`, whose times and
/// values are accessors `2k` and `2k + 1` past the old ones, over buffer views `2k` and `2k + 1`
/// past the old ones, in the order the buffer received them.
#[verifier::opaque]
pub open spec fn exported(
    es: Seq<Entry>,
    bytes0: Seq<u8>,
    views0: Seq<BufferView>,
    acc0: Seq<Accessor>,
    channels: Seq<AnimationChannel>,
    samplers: Seq<AnimationSampler>,
    w: BinWriter,
) -> bool {
    let a0 = acc0.len() as int;
    let v0 = views0.len() as int;
    &&& channels.len() == es.len()
    &&& samplers.len() == es.len()
    &&& w.bytes@ == bytes_after(bytes0, es)
    &&& w.buffer_views@.len() == v0 + 2 * es.len()
    &&& w.accessors@.len() == a0 + 2 * es.len()
    &&& forall|i: int| 0 <= i < v0 ==> #[trigger] w.buffer_views@[i] == views0[i]
    &&& forall|i: int| 0 <= i < a0 ==> #[trigger] w.accessors@[i] == acc0[i]
    &&& forall|k: int|
        0 <= k < es.len() ==> {
            let e = #[trigger] es[k];
            let before = bytes_after(bytes0, es.take(k));
            &&& channel_is(channels[k], k, e.0, e.1)
            &&& sampler_is(samplers[k], a0 + 2 * k, a0 + 2 * k + 1, e.2.interpolation)
            &&& w.buffer_views@[v0 + 2 * k] == view_after(before, words_le(e.2.times@), None)
            &&& w.buffer_views@[v0 + 2 * k + 1] == view_after(
                padded(before, 0) + words_le(e.2.times@),
                words_le(e.2.values@),
                None,
            )
            &&& time_accessor_is(w.accessors@[a0 + 2 * k], v0 + 2 * k, e.2)
            &&& value_accessor_is(w.accessors@[a0 + 2 * k + 1], v0 + 2 * k + 1, e.2, e.1)
        }
}

/// The property a glTF channel target path names: `translation`, `rotation` or `scale`; none for
/// any other path.
pub fn parse_channel_path(name: &str) -> (r: Option<TrsPath>)
    ensures
        match r {
            Some(p) => path_name(p) == name@,
            None => forall|p: TrsPath| path_name(p) != name@,
        },
{
    let s = String::from_str(name);
    proof {
        reveal_strlit("translation");
        reveal_strlit("rotation");
        reveal_strlit("scale");
    }
    if s == String::from_str("translation") {
        Some(TrsPath::Translation)
    } else if s == String::from_str("rotation") {
        Some(TrsPath::Rotation)
    } else if s == String::from_str("scale") {
        Some(TrsPath::Scale)
    } else {
        proof {
            assert forall|p: TrsPath| path_name(p) != name@ by {
                match p {
                    TrsPath::Translation => {},
                    TrsPath::Rotation => {},
                    TrsPath::Scale => {},
                }
            }
        }
        None
    }
}

/// Reading back the target path written for a property gives that property.
pub proof fn lemma_path_name_round_trip(p: TrsPath, q: TrsPath)
    ensures
        path_name(p) == path_name(q) ==> p == q,
{
    reveal_strlit("translation");
    reveal_strlit("rotation");
    reveal_strlit("scale");
    assert("translation"@.len() != "rotation"@.len());
    assert("translation"@.len() != "scale"@.len());
    assert("rotation"@.len() != "scale"@.len());
}

/// The glTF name of a channel's target property.
fn path_string(path: TrsPath) -> (s: String)
    ensures
        s@ == path_name(path),
{
    match path {
        TrsPath::Translation => String::from_str("translation"),
        TrsPath::Rotation => String::from_str("rotation"),
        TrsPath::Scale => String::from_str("scale"),
    }
}

/// Writes one keyframe track as a sampler and a channel targeting `path` of `node`: its times as
/// a scalar accessor bounded by the smallest and largest time, its values as an accessor of the
/// property's element type. A track without keyframes is skipped.
fn push_channel(
    samplers: &mut Vec<AnimationSampler>,
    channels: &mut Vec<AnimationChannel>,
    writer: &mut BinWriter,
    node: u32,
    path: TrsPath,
    track: &TrackData,
)
    ensures
        track.times@.len() == 0 ==> {
            &&& final(samplers)@ == old(samplers)@
            &&& final(channels)@ == old(channels)@
            &&& *final(writer) == *old(writer)
        },
        track.times@.len() > 0 ==> {
            let a0 = old(writer).accessors@.len() as int;
            let v0 = old(writer).buffer_views@.len() as int;
            let bytes = old(writer).bytes@;
            &&& final(channels)@.len() == old(channels)@.len() + 1
            &&& final(samplers)@.len() == old(samplers)@.len() + 1
            &&& final(channels)@.drop_last() == old(channels)@
            &&& final(samplers)@.drop_last() == old(samplers)@
            &&& channel_is(final(channels)@.last(), old(samplers)@.len() as int, node, path)
            &&& sampler_is(final(samplers)@.last(), a0, a0 + 1, track.interpolation)
            &&& final(writer).bytes@ == track_bytes(bytes, *track)
            &&& final(writer).buffer_views@ == old(writer).buffer_views@.push(
                view_after(bytes, words_le(track.times@), None),
            ).push(view_after(padded(bytes, 0) + words_le(track.times@), words_le(track.values@), None))
            &&& final(writer).accessors@.len() == a0 + 2
            &&& forall|i: int| 0 <= i < a0 ==> #[trigger] final(writer).accessors@[i] == old(writer).accessors@[i]
            &&& time_accessor_is(final(writer).accessors@[a0], v0, *track)
            &&& value_accessor_is(final(writer).accessors@[a0 + 1], v0 + 1, *track, path)
        },
{
    if track.times.len() == 0 {
        return;
    }
    let ghost w0 = *writer;
    let mut lo: Vec<u32> = Vec::new();
    lo.push(track.time_min);
    let mut hi: Vec<u32> = Vec::new();
    hi.push(track.time_max);
    let input = writer.write_float_words(
        &track.times,
        track.times.len() as u32,
        AccessorKind::Scalar,
        None,
        Some((lo, hi)),
    );
    let ghost w1 = *writer;
    let kind = match path {
        TrsPath::Rotation => AccessorKind::Vec4,
        _ => AccessorKind::Vec3,
    };
    let output = writer.write_float_words(&track.values, track.count, kind, None, None);
    proof {
        assert(writer.accessors@[w0.accessors@.len() as int] == w1.accessors@.last());
    }
    let interpolation = interpolation_name(track.interpolation);
    let sampler = samplers.len() as u32;
    samplers.push(AnimationSampler { input, output, interpolation });
    channels.push(AnimationChannel { sampler, target: AnimationChannelTarget { node, path: path_string(path) } });
    proof {
        assert(channels@.drop_last() =~= old(channels)@);
        assert(samplers@.drop_last() =~= old(samplers)@);
    }
}

/// The positions of `keys` ordered by nondecreasing key (equal keys in position order).
fn order_by_key(keys: &Vec<u32>) -> (order: Vec<usize>)
    ensures
        sorted_order(keys@, order@),
{
    let mut order: Vec<usize> = Vec::new();
    let mut k: usize = 0;
    while k < keys.len()
        invariant
            k <= keys@.len(),
            order@.len() == k,
            order@.no_duplicates(),
            forall|i: int| 0 <= i < order@.len() ==> #[trigger] order@[i] < k,
            forall|i: int, j: int|
                0 <= i < j < order@.len() ==> keys@[#[trigger] order@[i] as int] <= keys@[#[trigger] order@[j] as int],
        decreases keys@.len() - k,
    {
        let kk = keys[k];
        let mut p: usize = 0;
        while p < order.len()
            invariant
                p <= order@.len(),
                order@.len() == k,
                k < keys@.len(),
                kk == keys@[k as int],
                forall|i: int| 0 <= i < order@.len() ==> #[trigger] order@[i] < k,
                forall|i: int| 0 <= i < p ==> keys@[#[trigger] order@[i] as int] <= kk,
            ensures
                p <= order@.len(),
                forall|i: int| 0 <= i < p ==> keys@[#[trigger] order@[i] as int] <= kk,
                p < order@.len() ==> keys@[order@[p as int] as int] > kk,
            decreases order@.len() - p,
        {
            if keys[order[p]] > kk {
                break;
            }
            p = p + 1;
        }
        let ghost before = order@;
        proof {
            assert forall|i: int| p <= i < before.len() implies keys@[#[trigger] before[i] as int] > kk by {
                assert(keys@[before[p as int] as int] > kk);
                if i > p {
                    assert(keys@[before[p as int] as int] <= keys@[before[i] as int]);
                }
            }
        }
        order.insert(p, k);
        proof {
            assert forall|i: int| 0 <= i < order@.len() implies #[trigger] order@[i] < k + 1 by {
                if i < p {
                    assert(order@[i] == before[i]);
                } else if i > p {
                    assert(order@[i] == before[i - 1]);
                }
            }
            assert forall|i: int, j: int| 0 <= i < j < order@.len() implies order@[i] != order@[j] by {
                if i < p && j < p {
                    assert(order@[i] == before[i] && order@[j] == before[j]);
                } else if i < p && j == p {
                    assert(order@[i] == before[i]);
                } else if i < p && j > p {
                    assert(order@[i] == before[i] && order@[j] == before[j - 1]);
                } else if i == p {
                    assert(order@[j] == before[j - 1]);
                } else {
                    assert(order@[i] == before[i - 1] && order@[j] == before[j - 1]);
                }
            }
            assert forall|i: int, j: int|
                0 <= i < j < order@.len() implies keys@[#[trigger] order@[i] as int] <= keys@[#[trigger] order@[j] as int] by {
                if i < p && j < p {
                    assert(order@[i] == before[i] && order@[j] == before[j]);
                } else if i < p && j == p {
                    assert(order@[i] == before[i]);
                } else if i < p && j > p {
                    assert(order@[i] == before[i] && order@[j] == before[j - 1]);
                } else if i == p {
                    assert(order@[j] == before[j - 1]);
                } else {
                    assert(order@[i] == before[i - 1] && order@[j] == before[j - 1]);
                }
            }
        }
        k = k + 1;
    }
    order
}

proof fn lemma_exported_step(
    es: Seq<Entry>,
    bytes0: Seq<u8>,
    views0: Seq<BufferView>,
    acc0: Seq<Accessor>,
    channels: Seq<AnimationChannel>,
    samplers: Seq<AnimationSampler>,
    w: BinWriter,
    e: Entry,
    channels2: Seq<AnimationChannel>,
    samplers2: Seq<AnimationSampler>,
    w2: BinWriter,
)
    requires
        exported(es, bytes0, views0, acc0, channels, samplers, w),
        channels2.len() == channels.len() + 1,
        samplers2.len() == samplers.len() + 1,
        channels2.drop_last() == channels,
        samplers2.drop_last() == samplers,
        channel_is(channels2.last(), samplers.len() as int, e.0, e.1),
        sampler_is(samplers2.last(), w.accessors@.len() as int, w.accessors@.len() as int + 1, e.2.interpolation),
        w2.bytes@ == track_bytes(w.bytes@, e.2),
        w2.buffer_views@ == w.buffer_views@.push(view_after(w.bytes@, words_le(e.2.times@), None)).push(
            view_after(padded(w.bytes@, 0) + words_le(e.2.times@), words_le(e.2.values@), None),
        ),
        w2.accessors@.len() == w.accessors@.len() + 2,
        forall|i: int| 0 <= i < w.accessors@.len() ==> #[trigger] w2.accessors@[i] == w.accessors@[i],
        time_accessor_is(w2.accessors@[w.accessors@.len() as int], w.buffer_views@.len() as int, e.2),
        value_accessor_is(w2.accessors@[w.accessors@.len() as int + 1], w.buffer_views@.len() as int + 1, e.2, e.1),
    ensures
        exported(es.push(e), bytes0, views0, acc0, channels2, samplers2, w2),
{
    reveal(exported);
    let es2 = es.push(e);
    let a0 = acc0.len() as int;
    let v0 = views0.len() as int;
    let n = es.len() as int;
    assert(es2.drop_last() =~= es);
    assert(es2.take(n) =~= es);
    assert forall|i: int| 0 <= i < v0 implies #[trigger] w2.buffer_views@[i] == views0[i] by {
        assert(w2.buffer_views@[i] == w.buffer_views@[i]);
    }
    assert forall|i: int| 0 <= i < a0 implies #[trigger] w2.accessors@[i] == acc0[i] by {
        assert(w2.accessors@[i] == w.accessors@[i]);
    }
    assert forall|k: int| 0 <= k < es2.len() implies {
        let e = #[trigger] es2[k];
        let before = bytes_after(bytes0, es2.take(k));
        &&& channel_is(channels2[k], k, e.0, e.1)
        &&& sampler_is(samplers2[k], a0 + 2 * k, a0 + 2 * k + 1, e.2.interpolation)
        &&& w2.buffer_views@[v0 + 2 * k] == view_after(before, words_le(e.2.times@), None)
        &&& w2.buffer_views@[v0 + 2 * k + 1] == view_after(
            padded(before, 0) + words_le(e.2.times@),
            words_le(e.2.values@),
            None,
        )
        &&& time_accessor_is(w2.accessors@[a0 + 2 * k], v0 + 2 * k, e.2)
        &&& value_accessor_is(w2.accessors@[a0 + 2 * k + 1], v0 + 2 * k + 1, e.2, e.1)
    } by {
        if k < n {
            assert(es2[k] == es[k]);
            assert(es2.take(k) =~= es.take(k));
            assert(channels2[k] == channels[k]);
            assert(samplers2[k] == samplers[k]);
            assert(w2.buffer_views@[v0 + 2 * k] == w.buffer_views@[v0 + 2 * k]);
            assert(w2.buffer_views@[v0 + 2 * k + 1] == w.buffer_views@[v0 + 2 * k + 1]);
            assert(w2.accessors@[a0 + 2 * k] == w.accessors@[a0 + 2 * k]);
            assert(w2.accessors@[a0 + 2 * k + 1] == w.accessors@[a0 + 2 * k + 1]);
        } else {
            assert(es2[k] == e);
        }
    }
}

/// Writes the channel of `track`, if it has keyframes, for `node`'s property `path`.
fn push_track(
    samplers: &mut Vec<AnimationSampler>,
    channels: &mut Vec<AnimationChannel>,
    writer: &mut BinWriter,
    node: u32,
    path: TrsPath,
    track: &Option<TrackData>,
    Ghost(es): Ghost<Seq<Entry>>,
    Ghost(bytes0): Ghost<Seq<u8>>,
    Ghost(views0): Ghost<Seq<BufferView>>,
    Ghost(acc0): Ghost<Seq<Accessor>>,
)
    requires
        exported(es, bytes0, views0, acc0, old(channels)@, old(samplers)@, *old(writer)),
    ensures
        exported(
            es + track_entry(node, path, *track),
            bytes0,
            views0,
            acc0,
            final(channels)@,
            final(samplers)@,
            *final(writer),
        ),
{
    match track {
        Some(t) => {
            push_channel(samplers, channels, writer, node, path, t);
            proof {
                if t.times@.len() > 0 {
                    lemma_exported_step(
                        es,
                        bytes0,
                        views0,
                        acc0,
                        old(channels)@,
                        old(samplers)@,
                        *old(writer),
                        (node, path, *t),
                        channels@,
                        samplers@,
                        *writer,
                    );
                    assert(es + track_entry(node, path, *track) =~= es.push((node, path, *t)));
                } else {
                    assert(es + track_entry(node, path, *track) =~= es);
                }
            }
        },
        None => {
            assert(es + track_entry(node, path, *track) =~= es);
        },
    }
}

/// The node of each track list.
pub open spec fn node_keys(tracks: Seq<NodeTracks>) -> Seq<u32> {
    tracks.map_values(|t: NodeTracks| t.node)
}

/// Writes an animation named `name`: for each animated node in `tracks`, by node index, the
/// channels of its translation, rotation and scale tracks that have keyframes, with their
/// samplers; the keyframes go to `writer` as accessors.
pub fn build_animation(
    name: String,
    extras: Option<crate::gltf::Dict>,
    tracks: &Vec<NodeTracks>,
    writer: &mut BinWriter,
) -> (a: crate::gltf::Animation)
    ensures
        a.name matches Some(n) && n@ == name@,
        a.extras == extras,
        exists|order: Seq<usize>|
            sorted_order(node_keys(tracks@), order) && exported(
                #[trigger] entries_in(tracks@, order),
                old(writer).bytes@,
                old(writer).buffer_views@,
                old(writer).accessors@,
                a.channels@,
                a.samplers@,
                *final(writer),
            ),
{
    let ghost bytes0 = writer.bytes@;
    let ghost views0 = writer.buffer_views@;
    let ghost acc0 = writer.accessors@;
    let mut keys: Vec<u32> = Vec::new();
    let mut k: usize = 0;
    while k < tracks.len()
        invariant
            k <= tracks@.len(),
            keys@ == node_keys(tracks@).take(k as int),
        decreases tracks@.len() - k,
    {
        keys.push(tracks[k].node);
        k = k + 1;
        assert(keys@ =~= node_keys(tracks@).take(k as int));
    }
    assert(keys@ =~= node_keys(tracks@));
    let order = order_by_key(&keys);
    let mut channels: Vec<AnimationChannel> = Vec::new();
    let mut samplers: Vec<AnimationSampler> = Vec::new();
    proof {
        reveal(exported);
        assert(order@.take(0) =~= Seq::<usize>::empty());
        assert(bytes_after(bytes0, Seq::<Entry>::empty()) == bytes0);
        assert(entries_in(tracks@, order@.take(0)) == Seq::<Entry>::empty());
    }
    let mut r: usize = 0;
    while r < order.len()
        invariant
            r <= order@.len(),
            sorted_order(node_keys(tracks@), order@),
            order@.len() == tracks@.len(),
            exported(entries_in(tracks@, order@.take(r as int)), bytes0, views0, acc0, channels@, samplers@, *writer),
        decreases order@.len() - r,
    {
        let t = &tracks[order[r]];
        let ghost es = entries_in(tracks@, order@.take(r as int));
        push_track(&mut samplers, &mut channels, writer, t.node, TrsPath::Translation, &t.translation, Ghost(es), Ghost(bytes0), Ghost(views0), Ghost(acc0));
        let ghost es1 = es + track_entry(t.node, TrsPath::Translation, t.translation);
        push_track(&mut samplers, &mut channels, writer, t.node, TrsPath::Rotation, &t.rotation, Ghost(es1), Ghost(bytes0), Ghost(views0), Ghost(acc0));
        let ghost es2 = es1 + track_entry(t.node, TrsPath::Rotation, t.rotation);
        push_track(&mut samplers, &mut channels, writer, t.node, TrsPath::Scale, &t.scale, Ghost(es2), Ghost(bytes0), Ghost(views0), Ghost(acc0));
        proof {
            let es3 = es2 + track_entry(t.node, TrsPath::Scale, t.scale);
            assert(order@.take(r + 1).drop_last() =~= order@.take(r as int));
            assert(es3 =~= entries_in(tracks@, order@.take(r + 1)));
        }
        r = r + 1;
    }
    proof {
        assert(order@.take(order@.len() as int) =~= order@);
    }
    crate::gltf::Animation { name: Some(name), channels, samplers, extras }
}

} // verus!
