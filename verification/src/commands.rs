//! Outbound command dispatch: how an operator-scheduled job is turned into
//! the message published to its ground station.
//!
//! A job's command list travels as one framed payload, little-endian: a
//! 4-byte command count, then for each command a 4-byte byte length followed
//! by the command's bytes.  Decoding is total and accepts exactly the
//! framings that encoding produces; a frame must be consumed to its last
//! byte.  The publish topic names the addressed ground-station/satellite
//! pairing: `gs/<gsId>/commands/<satId>`.

use vstd::prelude::*;
use vstd::bytes::{
    spec_u32_from_le_bytes, spec_u32_to_le_bytes, u32_from_le_bytes, u32_to_le_bytes,
    lemma_auto_spec_u32_to_from_le_bytes,
};
use vstd::slice::{slice_subrange, slice_to_vec};
use vstd::string::StringSliceAdditionalSpecFns;

verus! {

/// The framed form of a command list.
pub open spec fn spec_encode_each(cmds: Seq<Seq<u8>>) -> Seq<u8>
    decreases cmds.len(),
{
    if cmds.len() == 0 {
        Seq::empty()
    } else {
        spec_encode_each(cmds.drop_last()) + spec_u32_to_le_bytes(cmds.last().len() as u32)
            + cmds.last()
    }
}

/// A command list fits the frame when the count and every command's byte
/// length fit 32 bits.
pub open spec fn spec_commands_encodable(cmds: Seq<Seq<u8>>) -> bool {
    &&& cmds.len() <= u32::MAX
    &&& forall|i: int| 0 <= i < cmds.len() ==> (#[trigger] cmds[i]).len() <= u32::MAX
}

/// The full frame: the command count, then each framed command.
pub open spec fn spec_encode_commands(cmds: Seq<Seq<u8>>) -> Seq<u8> {
    spec_u32_to_le_bytes(cmds.len() as u32) + spec_encode_each(cmds)
}

/// Parses `n` framed commands out of `p`, requiring `p` to be consumed
/// exactly.
pub open spec fn spec_decode_each(p: Seq<u8>, n: nat) -> Option<Seq<Seq<u8>>>
    decreases n,
{
    if n == 0 {
        if p.len() == 0 {
            Some(Seq::empty())
        } else {
            None
        }
    } else if p.len() < 4 {
        None
    } else {
        let l = spec_u32_from_le_bytes(p.subrange(0, 4));
        if p.len() - 4 < l {
            None
        } else {
            match spec_decode_each(p.skip(4 + l), (n - 1) as nat) {
                Option::None => None,
                Option::Some(rest) => Some(seq![p.subrange(4, 4 + l)] + rest),
            }
        }
    }
}

/// The command list a frame stands for, or nothing when the frame is not
/// exactly a framing that [`spec_encode_commands`] produces.
pub open spec fn spec_decode_commands(p: Seq<u8>) -> Option<Seq<Seq<u8>>> {
    if p.len() < 4 {
        None
    } else {
        spec_decode_each(p.skip(4), spec_u32_from_le_bytes(p.subrange(0, 4)) as nat)
    }
}

proof fn lemma_encode_each_first(cmds: Seq<Seq<u8>>)
    requires
        cmds.len() > 0,
    ensures
        spec_encode_each(cmds) == spec_u32_to_le_bytes(cmds[0].len() as u32) + cmds[0]
            + spec_encode_each(cmds.drop_first()),
    decreases cmds.len(),
{
    if cmds.len() == 1 {
        assert(cmds.drop_last() =~= Seq::<Seq<u8>>::empty());
        assert(cmds.drop_first() =~= Seq::<Seq<u8>>::empty());
        assert(cmds.last() == cmds[0]);
        assert(spec_encode_each(cmds) =~= spec_u32_to_le_bytes(cmds[0].len() as u32) + cmds[0]
            + spec_encode_each(cmds.drop_first()));
    } else {
        let head = cmds.drop_last();
        lemma_encode_each_first(head);
        assert(head[0] == cmds[0]);
        assert(head.drop_first() =~= cmds.drop_first().drop_last());
        assert(cmds.drop_first().last() == cmds.last());
        assert(spec_encode_each(cmds.drop_first()) == spec_encode_each(
            cmds.drop_first().drop_last(),
        ) + spec_u32_to_le_bytes(cmds.drop_first().last().len() as u32) + cmds.drop_first().last());
        assert(spec_encode_each(cmds) =~= spec_u32_to_le_bytes(cmds[0].len() as u32) + cmds[0]
            + spec_encode_each(cmds.drop_first()));
    }
}

proof fn lemma_decode_each_round_trip(cmds: Seq<Seq<u8>>)
    requires
        forall|i: int| 0 <= i < cmds.len() ==> (#[trigger] cmds[i]).len() <= u32::MAX,
    ensures
        spec_decode_each(spec_encode_each(cmds), cmds.len()) == Some(cmds),
    decreases cmds.len(),
{
    lemma_auto_spec_u32_to_from_le_bytes();
    if cmds.len() == 0 {
        assert(spec_encode_each(cmds).len() == 0);
        assert(spec_decode_each(spec_encode_each(cmds), 0) == Some(Seq::<Seq<u8>>::empty()));
        assert(cmds =~= Seq::<Seq<u8>>::empty());
    } else {
        lemma_encode_each_first(cmds);
        let c0 = cmds[0];
        let lb = spec_u32_to_le_bytes(c0.len() as u32);
        let p = spec_encode_each(cmds);
        let rest_enc = spec_encode_each(cmds.drop_first());
        assert(p == lb + c0 + rest_enc);
        assert(p.len() == 4 + c0.len() + rest_enc.len());
        assert(p.subrange(0, 4) =~= lb);
        let l = spec_u32_from_le_bytes(p.subrange(0, 4));
        assert(l == c0.len());
        assert(p.subrange(4, 4 + l) =~= c0);
        assert(p.skip(4 + l) =~= rest_enc);
        assert(forall|i: int|
            0 <= i < cmds.drop_first().len() ==> (#[trigger] cmds.drop_first()[i]).len()
                <= u32::MAX);
        lemma_decode_each_round_trip(cmds.drop_first());
        assert(spec_decode_each(p, cmds.len()) == Some(seq![c0] + cmds.drop_first()));
        assert(seq![c0] + cmds.drop_first() =~= cmds);
    }
}

/// Round trip: decoding the framing of any encodable command list yields
/// the list unchanged.
pub proof fn lemma_commands_round_trip(cmds: Seq<Seq<u8>>)
    requires
        spec_commands_encodable(cmds),
    ensures
        spec_decode_commands(spec_encode_commands(cmds)) == Some(cmds),
{
    lemma_auto_spec_u32_to_from_le_bytes();
    let p = spec_encode_commands(cmds);
    assert(p.subrange(0, 4) =~= spec_u32_to_le_bytes(cmds.len() as u32));
    assert(p.skip(4) =~= spec_encode_each(cmds));
    lemma_decode_each_round_trip(cmds);
}

/// Frames a command list, or answers nothing when the count or one
/// command's length overflows the frame's 32-bit fields.
pub fn encode_commands(cmds: &Vec<Vec<u8>>) -> (r: Option<Vec<u8>>)
    ensures
        spec_commands_encodable(cmds.deep_view()) ==> (r matches Some(out) && out@
            == spec_encode_commands(cmds.deep_view())),
        !spec_commands_encodable(cmds.deep_view()) ==> r is None,
{
    let ghost model = cmds.deep_view();
    proof {
        assert(model.len() == cmds@.len());
        assert(forall|i: int| 0 <= i < cmds@.len() ==> model[i] == #[trigger] cmds@[i]@);
    }
    if cmds.len() > u32::MAX as usize {
        return None;
    }
    let count: u32 = cmds.len() as u32;
    let mut out = u32_to_le_bytes(count);
    let n = cmds.len();
    let mut i: usize = 0;
    while i < n
        invariant
            0 <= i <= n,
            n == cmds@.len(),
            n <= u32::MAX,
            model == cmds.deep_view(),
            count == n as u32,
            forall|j: int| 0 <= j < i ==> (#[trigger] model[j]).len() <= u32::MAX,
            out@ == spec_u32_to_le_bytes(count) + spec_encode_each(model.take(i as int)),
        decreases n - i,
    {
        let cmd_len = cmds[i].len();
        if cmd_len > u32::MAX as usize {
            proof {
                assert(model[i as int].len() > u32::MAX);
            }
            return None;
        }
        let mut piece = u32_to_le_bytes(cmd_len as u32);
        out.append(&mut piece);
        let mut body = slice_to_vec(cmds[i].as_slice());
        out.append(&mut body);
        proof {
            let pre = model.take(i + 1);
            assert(pre.drop_last() =~= model.take(i as int));
            assert(pre.last() == model[i as int]);
            assert(model[i as int] == cmds@[i as int]@);
            assert(out@ =~= spec_u32_to_le_bytes(count) + spec_encode_each(pre));
        }
        i = i + 1;
    }
    proof {
        assert(model.take(n as int) =~= model);
    }
    Some(out)
}

/// Unframes a command payload; total over all byte strings, answering
/// nothing for any frame that encoding could not have produced.
pub fn decode_commands(payload: &[u8]) -> (r: Option<Vec<Vec<u8>>>)
    ensures
        match spec_decode_commands(payload@) {
            Option::Some(cmds) => r matches Some(v) && v.deep_view() == cmds,
            Option::None => r is None,
        },
{
    let len = payload.len();
    if len < 4 {
        return None;
    }
    let count = u32_from_le_bytes(slice_subrange(payload, 0, 4));
    proof {
        assert(payload@.subrange(0, 4) == payload@.subrange(0, 4));
    }
    let mut out: Vec<Vec<u8>> = Vec::new();
    let mut off: usize = 4;
    let mut i: u32 = 0;
    proof {
        assert(payload@.skip(4) =~= payload@.skip(4));
        assert(out.deep_view() =~= Seq::<Seq<u8>>::empty());
    }
    while i < count
        invariant
            0 <= i <= count,
            4 <= off <= len,
            len == payload@.len(),
            count == spec_u32_from_le_bytes(payload@.subrange(0, 4)),
            out.deep_view().len() == i,
            spec_decode_commands(payload@) == match spec_decode_each(
                payload@.skip(off as int),
                (count - i) as nat,
            ) {
                Option::Some(rest) => Some(out.deep_view() + rest),
                Option::None => None::<Seq<Seq<u8>>>,
            },
        decreases count - i,
    {
        let ghost tail = payload@.skip(off as int);
        let ghost remaining = (count - i) as nat;
        if len - off < 4 {
            proof {
                assert(tail.len() < 4);
                assert(spec_decode_each(tail, remaining) is None);
            }
            return None;
        }
        let l32 = u32_from_le_bytes(slice_subrange(payload, off, off + 4));
        proof {
            assert(tail.subrange(0, 4) =~= payload@.subrange(off as int, off + 4));
        }
        let l = l32 as usize;
        if len - (off + 4) < l {
            proof {
                assert(tail.len() - 4 < l);
                assert(spec_decode_each(tail, remaining) is None);
            }
            return None;
        }
        let cmd = slice_to_vec(slice_subrange(payload, off + 4, off + 4 + l));
        let ghost old_model = out.deep_view();
        out.push(cmd);
        proof {
            assert(cmd.deep_view() =~= cmd@);
            assert(out.deep_view() =~= old_model.push(cmd@));
            assert(tail.subrange(4, 4 + l as int) =~= payload@.subrange(off + 4, off + 4 + l));
            assert(cmd@ == tail.subrange(4, 4 + l as int));
            assert(tail.skip(4 + l as int) =~= payload@.skip(off + 4 + l));
            assert(spec_decode_each(tail, remaining) == match spec_decode_each(
                payload@.skip(off + 4 + l),
                (remaining - 1) as nat,
            ) {
                Option::Some(rest) => Some(seq![cmd@] + rest),
                Option::None => None::<Seq<Seq<u8>>>,
            });
            if spec_decode_each(payload@.skip(off + 4 + l), (remaining - 1) as nat) is Some {
                let rest = spec_decode_each(payload@.skip(off + 4 + l), (remaining - 1) as nat)
                    ->Some_0;
                assert(old_model + (seq![cmd@] + rest) =~= old_model.push(cmd@) + rest);
            }
        }
        off = off + 4 + l;
        i = i + 1;
    }
    if off != len {
        proof {
            assert(payload@.skip(off as int).len() != 0);
            assert(spec_decode_each(payload@.skip(off as int), 0) is None);
        }
        return None;
    }
    proof {
        assert(payload@.skip(off as int).len() == 0);
        assert(payload@.skip(off as int) =~= Seq::<u8>::empty());
        assert(spec_decode_each(payload@.skip(off as int), 0) == Some(Seq::<Seq<u8>>::empty()));
        assert(out.deep_view() + Seq::<Seq<u8>>::empty() =~= out.deep_view());
    }
    Some(out)
}

/// The character standing for one decimal digit.
pub open spec fn spec_digit_char(d: nat) -> char {
    ((48 + d) as u8) as char
}

/// The decimal rendering of a natural number, most significant digit first,
/// no leading zeros (a lone zero for zero).
pub open spec fn spec_digits_of(n: nat) -> Seq<char>
    decreases n,
{
    if n < 10 {
        seq![spec_digit_char(n)]
    } else {
        spec_digits_of(n / 10).push(spec_digit_char(n % 10))
    }
}

/// The decimal rendering of a signed value: a minus sign before the
/// magnitude when negative.
pub open spec fn spec_i64_digits(n: i64) -> Seq<char> {
    if n >= 0 {
        spec_digits_of(n as nat)
    } else {
        seq!['-'] + spec_digits_of((0 - n as int) as nat)
    }
}

fn digit_str(d: u8) -> (r: &'static str)
    requires
        d < 10,
    ensures
        r@ == seq![spec_digit_char(d as nat)],
{
    if d == 0 {
        proof {
            reveal_strlit("0");
            assert("0"@ =~= seq![spec_digit_char(0)]);
        }
        "0"
    } else if d == 1 {
        proof {
            reveal_strlit("1");
            assert("1"@ =~= seq![spec_digit_char(1)]);
        }
        "1"
    } else if d == 2 {
        proof {
            reveal_strlit("2");
            assert("2"@ =~= seq![spec_digit_char(2)]);
        }
        "2"
    } else if d == 3 {
        proof {
            reveal_strlit("3");
            assert("3"@ =~= seq![spec_digit_char(3)]);
        }
        "3"
    } else if d == 4 {
        proof {
            reveal_strlit("4");
            assert("4"@ =~= seq![spec_digit_char(4)]);
        }
        "4"
    } else if d == 5 {
        proof {
            reveal_strlit("5");
            assert("5"@ =~= seq![spec_digit_char(5)]);
        }
        "5"
    } else if d == 6 {
        proof {
            reveal_strlit("6");
            assert("6"@ =~= seq![spec_digit_char(6)]);
        }
        "6"
    } else if d == 7 {
        proof {
            reveal_strlit("7");
            assert("7"@ =~= seq![spec_digit_char(7)]);
        }
        "7"
    } else if d == 8 {
        proof {
            reveal_strlit("8");
            assert("8"@ =~= seq![spec_digit_char(8)]);
        }
        "8"
    } else {
        proof {
            reveal_strlit("9");
            assert("9"@ =~= seq![spec_digit_char(9)]);
        }
        "9"
    }
}

/// Renders an unsigned value in decimal.
pub fn u64_to_string(n: u64) -> (s: String)
    ensures
        s@ == spec_digits_of(n as nat),
    decreases n,
{
    let d: u8 = (n % 10) as u8;
    if n < 10 {
        String::from_str(digit_str(d))
    } else {
        let mut s = u64_to_string(n / 10);
        s.append(digit_str(d));
        proof {
            assert(s@ =~= spec_digits_of(n as nat));
        }
        s
    }
}

/// Renders a signed value in decimal.
pub fn i64_to_string(n: i64) -> (s: String)
    ensures
        s@ == spec_i64_digits(n),
{
    if n >= 0 {
        u64_to_string(n as u64)
    } else {
        let m: u64 = ((-(n + 1)) as u64) + 1;
        proof {
            assert(m as nat == (0 - n as int) as nat);
        }
        let mut s = String::from_str("-");
        let digits = u64_to_string(m);
        s.append(digits.as_str());
        proof {
            reveal_strlit("-");
            assert(s@ =~= spec_i64_digits(n));
        }
        s
    }
}

/// The topic that addresses a ground-station/satellite pairing for command
/// delivery.
pub fn command_topic(gs_id: i64, sat_id: i64) -> (t: String)
    ensures
        t@ == "gs/"@ + spec_i64_digits(gs_id) + "/commands/"@ + spec_i64_digits(sat_id),
{
    let mut t = String::from_str("gs/");
    let gs_digits = i64_to_string(gs_id);
    t.append(gs_digits.as_str());
    t.append("/commands/");
    let sat_digits = i64_to_string(sat_id);
    t.append(sat_digits.as_str());
    proof {
        assert(t@ =~= "gs/"@ + spec_i64_digits(gs_id) + "/commands/"@ + spec_i64_digits(sat_id));
    }
    t
}

/// The byte strings a job's command list stands for on the wire.
pub open spec fn spec_command_bytes(cmds: Seq<String>) -> Seq<Seq<u8>> {
    Seq::new(cmds.len(), |i: int| vstd::utf8::encode_utf8(cmds[i]@))
}

/// The publish request that dispatches a job outward: the topic addressing
/// its ground-station/satellite pairing, and its command list framed as one
/// payload.  Nothing when the list cannot be framed, that is, when the
/// count or one command's UTF-8 byte length overflows the frame's 32-bit
/// fields.
pub fn job_publish_request(job: &crate::entities::Job) -> (r: Option<(String, Vec<u8>)>)
    ensures
        match r {
            Option::Some(req) => {
                &&& spec_commands_encodable(spec_command_bytes(job.commands@))
                &&& req.0@ == "gs/"@ + spec_i64_digits(job.gs_id) + "/commands/"@
                    + spec_i64_digits(job.sat_id)
                &&& req.1@ == spec_encode_commands(spec_command_bytes(job.commands@))
            },
            Option::None => !spec_commands_encodable(spec_command_bytes(job.commands@)),
        },
{
    let bytes = commands_to_bytes(&job.commands);
    proof {
        assert forall|i: int| 0 <= i < bytes@.len() implies bytes.deep_view()[i]
            == spec_command_bytes(job.commands@)[i] by {
            assert(bytes@[i].deep_view() =~= bytes@[i]@);
        }
        assert(bytes.deep_view() =~= spec_command_bytes(job.commands@));
    }
    match encode_commands(&bytes) {
        Option::None => None,
        Option::Some(payload) => {
            let topic = command_topic(job.gs_id, job.sat_id);
            Some((topic, payload))
        },
    }
}

/// The command strings of a job as byte strings, UTF-8 encoded.
pub fn commands_to_bytes(cmds: &Vec<String>) -> (out: Vec<Vec<u8>>)
    ensures
        out@.len() == cmds@.len(),
        forall|i: int| 0 <= i < cmds@.len() ==> (#[trigger] out@[i])@ == vstd::utf8::encode_utf8(cmds@[i]@),
{
    let n = cmds.len();
    let mut out: Vec<Vec<u8>> = Vec::new();
    let mut i: usize = 0;
    while i < n
        invariant
            0 <= i <= n,
            n == cmds@.len(),
            out@.len() == i,
            forall|j: int|
                0 <= j < i ==> (#[trigger] out@[j])@ == vstd::utf8::encode_utf8(cmds@[j]@),
        decreases n - i,
    {
        out.push(cmds[i].as_str().as_bytes_vec());
        i = i + 1;
    }
    out
}

} // verus!
