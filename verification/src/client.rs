//! Outbound message encoding: the same wire format as [`crate::parser`],
//! written instead of read.  Used by the relay driver to forward commands to
//! an upstream effect server, and by clients of such a server.

use vstd::prelude::*;

use crate::parser::{decode_cmds, find_nul, lossy_utf8, spec_parse, SpecCommand};

verus! {

/// Raw parameters for a RGB light command.
/// The first `u8` is the light's logical address.
pub struct LightParam(pub u8, pub u8, pub u8, pub u8);

impl View for LightParam {
    type V = (u8, u8, u8, u8);

    open spec fn view(&self) -> (u8, u8, u8, u8) {
        (self.0, self.1, self.2, self.3)
    }
}

impl LightParam {
    pub fn new(num: u8, red: u8, green: u8, blue: u8) -> (r: LightParam)
        ensures
            r@ == (num, red, green, blue),
    {
        LightParam(num, red, green, blue)
    }
}

/// One light frame per tuple: tag `1`, light id, light type `0` (set RGB
/// color), red, green, blue.
pub open spec fn encode_lights(lights: Seq<(u8, u8, u8, u8)>) -> Seq<u8>
    decreases lights.len(),
{
    if lights.len() == 0 {
        Seq::empty()
    } else {
        let l = lights[0];
        seq![1u8, l.0, 0u8, l.1, l.2, l.3] + encode_lights(lights.drop_first())
    }
}

/// A whole outbound message: version byte `1`, a nick frame, then one light
/// frame per tuple.
pub open spec fn spec_encode(nick: Seq<u8>, lights: Seq<(u8, u8, u8, u8)>) -> Seq<u8> {
    seq![1u8, 0u8] + nick + seq![0u8] + encode_lights(lights)
}

/// A nick can be carried on the wire only if none of its bytes is the NUL
/// terminator.
pub open spec fn no_nul(bytes: Seq<u8>) -> bool {
    forall|i: int| 0 <= i < bytes.len() ==> bytes[i] != 0
}

/// Build the wire form of a message that sets `lights` under the sender tag
/// `nick`.
pub fn encode_message(nick: &[u8], lights: &[LightParam]) -> (r: Vec<u8>)
    ensures
        r@ =~= spec_encode(nick@, lights@.map_values(|l: LightParam| l@)),
{
    let mut buf: Vec<u8> = Vec::new();
    buf.push(1);  // API version
    buf.push(0);  // nick tag
    let mut i: usize = 0;
    while i < nick.len()
        invariant
            i <= nick@.len(),
            buf@ =~= seq![1u8, 0u8] + nick@.take(i as int),
        decreases nick@.len() - i,
    {
        buf.push(nick[i]);
        i = i + 1;
        proof {
            assert(buf@ =~= seq![1u8, 0u8] + nick@.take(i as int));
        }
    }
    // terminate the nick frame with a null
    buf.push(0);
    proof {
        assert(nick@.take(nick@.len() as int) =~= nick@);
    }
    let mut k: usize = 0;
    while k < lights.len()
        invariant
            k <= lights@.len(),
            buf@ =~= seq![1u8, 0u8] + nick@ + seq![0u8] + encode_lights(
                lights@.take(k as int).map_values(|l: LightParam| l@),
            ),
        decreases lights@.len() - k,
    {
        let ghost prefix = lights@.take(k as int).map_values(|l: LightParam| l@);
        let l = &lights[k];
        buf.push(1);  // light packet
        buf.push(l.0);  // light number
        buf.push(0);  // set RGB color
        buf.push(l.1);  // red
        buf.push(l.2);  // green
        buf.push(l.3);  // blue
        k = k + 1;
        proof {
            lemma_encode_lights_push(prefix, lights@[k - 1]@);
            assert(lights@.take(k as int).map_values(|x: LightParam| x@) =~= prefix.push(
                lights@[k - 1]@,
            ));
            assert(buf@ =~= seq![1u8, 0u8] + nick@ + seq![0u8] + encode_lights(
                lights@.take(k as int).map_values(|x: LightParam| x@),
            ));
        }
    }
    proof {
        assert(lights@.take(lights@.len() as int) =~= lights@);
    }
    buf
}

/// Appending a tuple appends its frame.
proof fn lemma_encode_lights_push(lights: Seq<(u8, u8, u8, u8)>, l: (u8, u8, u8, u8))
    ensures
        encode_lights(lights.push(l)) =~= encode_lights(lights) + seq![
            1u8,
            l.0,
            0u8,
            l.1,
            l.2,
            l.3,
        ],
    decreases lights.len(),
{
    let frame = seq![1u8, l.0, 0u8, l.1, l.2, l.3];
    if lights.len() == 0 {
        assert(lights.push(l)[0] == l);
        assert(lights.push(l).drop_first() =~= Seq::<(u8, u8, u8, u8)>::empty());
        assert(encode_lights(lights.push(l)) =~= frame + encode_lights(
            Seq::<(u8, u8, u8, u8)>::empty(),
        ));
        assert(encode_lights(Seq::<(u8, u8, u8, u8)>::empty()) =~= Seq::<u8>::empty());
        assert(encode_lights(lights) =~= Seq::<u8>::empty());
    } else {
        let head = lights[0];
        let hframe = seq![1u8, head.0, 0u8, head.1, head.2, head.3];
        assert(lights.push(l)[0] == head);
        assert(lights.push(l).drop_first() =~= lights.drop_first().push(l));
        lemma_encode_lights_push(lights.drop_first(), l);
        assert(encode_lights(lights.push(l)) =~= hframe + encode_lights(
            lights.drop_first().push(l),
        ));
        assert(encode_lights(lights) =~= hframe + encode_lights(lights.drop_first()));
    }
}

/// The spec-level light command a tuple encodes to.
pub open spec fn rgb_of(l: (u8, u8, u8, u8)) -> SpecCommand {
    SpecCommand::RgbLight { id: l.0, light_type: 0, red: l.1, green: l.2, blue: l.3 }
}

/// The light tuples carried by a command sequence, in order.
pub open spec fn rgb_tuples(cs: Seq<SpecCommand>) -> Seq<(u8, u8, u8, u8)> {
    cs.filter(|c: SpecCommand| c is RgbLight).map_values(
        |c: SpecCommand| (c->id, c->red, c->green, c->blue),
    )
}

/// If the frames are exactly a run of encoded light frames, decoding yields
/// exactly those light commands and no error.
proof fn lemma_decode_encoded_lights(bytes: Seq<u8>, i: int, lights: Seq<(u8, u8, u8, u8)>)
    requires
        0 <= i <= bytes.len(),
        bytes.subrange(i, bytes.len() as int) =~= encode_lights(lights),
    ensures
        decode_cmds(bytes, i).0 =~= lights.map_values(|l: (u8, u8, u8, u8)| rgb_of(l)),
        decode_cmds(bytes, i).1 is None,
    decreases lights.len(),
{
    let tail = bytes.subrange(i, bytes.len() as int);
    if lights.len() == 0 {
        assert(encode_lights(lights) =~= Seq::<u8>::empty());
        assert(tail.len() == 0);
        assert(i == bytes.len());
    } else {
        let l = lights[0];
        let rest = encode_lights(lights.drop_first());
        assert(tail =~= seq![1u8, l.0, 0u8, l.1, l.2, l.3] + rest);
        assert(tail.len() == 6 + rest.len());
        assert(bytes[i] == tail[0] && tail[0] == 1u8);
        assert(bytes[i + 1] == tail[1] && tail[1] == l.0);
        assert(bytes[i + 2] == tail[2] && tail[2] == 0u8);
        assert(bytes[i + 3] == tail[3] && tail[3] == l.1);
        assert(bytes[i + 4] == tail[4] && tail[4] == l.2);
        assert(bytes[i + 5] == tail[5] && tail[5] == l.3);
        assert(bytes.subrange(i + 6, bytes.len() as int) =~= rest) by {
            assert forall|j: int| 0 <= j < bytes.len() - (i + 6) implies bytes.subrange(
                i + 6,
                bytes.len() as int,
            )[j] == rest[j] by {
                assert(bytes[i + 6 + j] == tail[6 + j]);
            }
        }
        lemma_decode_encoded_lights(bytes, i + 6, lights.drop_first());
        assert(decode_cmds(bytes, i).0 =~= seq![rgb_of(l)] + decode_cmds(bytes, i + 6).0);
        assert(lights.map_values(|x: (u8, u8, u8, u8)| rgb_of(x)) =~= seq![rgb_of(l)]
            + lights.drop_first().map_values(|x: (u8, u8, u8, u8)| rgb_of(x)));
    }
}

/// If nothing in `[s, k)` is NUL and `bytes[k]` is, the scan finds `k`.
proof fn lemma_find_nul_at(bytes: Seq<u8>, s: int, k: int)
    requires
        0 <= s <= k < bytes.len(),
        forall|j: int| s <= j < k ==> bytes[j] != 0,
        bytes[k] == 0,
    ensures
        find_nul(bytes, s) == Some(k),
    decreases k - s,
{
    if s < k {
        lemma_find_nul_at(bytes, s + 1, k);
    }
}

/// Law: an encoded message always decodes without error, to the nick frame
/// followed by exactly the light commands that were encoded.
pub proof fn lemma_decode_encode(nick: Seq<u8>, lights: Seq<(u8, u8, u8, u8)>)
    requires
        no_nul(nick),
    ensures
        ({
            let (cs, err) = spec_parse(spec_encode(nick, lights));
            &&& err is None
            &&& cs =~= seq![SpecCommand::Nick { nick: lossy_utf8(nick) }] + lights.map_values(
                |l: (u8, u8, u8, u8)| rgb_of(l),
            )
        }),
{
    let bytes = spec_encode(nick, lights);
    let n = nick.len() as int;
    assert(bytes[0] == 1);
    assert(bytes[1] == 0);
    assert(forall|j: int| 2 <= j < n + 2 ==> bytes[j] == nick[j - 2] && bytes[j] != 0);
    assert(bytes[n + 2] == 0);
    lemma_find_nul_at(bytes, 2, n + 2);
    assert(bytes.subrange(2, n + 2) =~= nick);
    assert(bytes.subrange(n + 3, bytes.len() as int) =~= encode_lights(lights));
    lemma_decode_encoded_lights(bytes, n + 3, lights);
    assert(decode_cmds(bytes, 1).0 =~= seq![SpecCommand::Nick { nick: lossy_utf8(nick) }]
        + decode_cmds(bytes, n + 3).0);
}

/// Law: encoding any tuples under a wire-safe nick yields a message that
/// decodes without error, and extracting the light tuples back out of it
/// yields exactly the tuples that were encoded.
pub proof fn lemma_encode_extract(nick: Seq<u8>, tuples: Seq<(u8, u8, u8, u8)>)
    requires
        no_nul(nick),
    ensures
        ({
            let (cs, err) = spec_parse(spec_encode(nick, tuples));
            &&& err is None
            &&& rgb_tuples(cs) =~= tuples
        }),
{
    lemma_decode_encode(nick, tuples);
    let cs = spec_parse(spec_encode(nick, tuples)).0;
    let mapped = tuples.map_values(|l: (u8, u8, u8, u8)| rgb_of(l));
    let pred = |c: SpecCommand| c is RgbLight;
    assert(cs =~= seq![SpecCommand::Nick { nick: lossy_utf8(nick) }] + mapped);
    Seq::filter_distributes_over_add(seq![SpecCommand::Nick { nick: lossy_utf8(nick) }], mapped, pred);
    assert(seq![SpecCommand::Nick { nick: lossy_utf8(nick) }].filter(pred) =~= Seq::empty()) by {
        reveal_with_fuel(Seq::filter, 2);
    }
    lemma_rgb_tuples_of_lights(tuples);
    assert(rgb_tuples(cs) =~= rgb_tuples(mapped));
}

/// Law: for a message that decodes without error, encoding the extracted
/// light tuples (under any wire-safe nick) and decoding again yields the same
/// light tuples — re-encoding round-trips the RGB values exactly.
pub proof fn lemma_reencode_roundtrip(bytes: Seq<u8>, nick: Seq<u8>)
    requires
        no_nul(nick),
        spec_parse(bytes).1 is None,
    ensures
        ({
            let tuples = rgb_tuples(spec_parse(bytes).0);
            let (cs, err) = spec_parse(spec_encode(nick, tuples));
            &&& err is None
            &&& rgb_tuples(cs) =~= tuples
        }),
{
    lemma_encode_extract(nick, rgb_tuples(spec_parse(bytes).0));
}

/// A run of light commands passes the light filter unchanged.
proof fn lemma_filter_all_lights(s: Seq<SpecCommand>)
    requires
        forall|i: int| 0 <= i < s.len() ==> s[i] is RgbLight,
    ensures
        s.filter(|c: SpecCommand| c is RgbLight) =~= s,
    decreases s.len(),
{
    reveal(Seq::filter);
    if s.len() > 0 {
        lemma_filter_all_lights(s.drop_last());
    }
}

/// Extracting the tuples back out of a pure run of encoded light commands
/// yields the very tuples that were encoded.
proof fn lemma_rgb_tuples_of_lights(tuples: Seq<(u8, u8, u8, u8)>)
    ensures
        rgb_tuples(tuples.map_values(|l: (u8, u8, u8, u8)| rgb_of(l))) =~= tuples,
{
    let mapped = tuples.map_values(|l: (u8, u8, u8, u8)| rgb_of(l));
    lemma_filter_all_lights(mapped);
    assert(rgb_tuples(mapped) =~= tuples);
}

} // verus!
