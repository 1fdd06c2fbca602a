//! The device side: the capability the protocol speaks through, the
//! simulated echo device used when no hardware is present, the stand-in
//! that always fails, and the adapter around a real serial channel.

use vstd::prelude::*;
use vstd::string::StringExecFns;

use crate::text::{is_ws, lemma_render_i32_len, lemma_render_no_ws, lemma_tokens_cons,
    lemma_tokens_ws, parse_i32, parse_usize, parse_i32_bytes, parse_usize_bytes, push_dec_i32,
    render_int, tokenize, tokens, tokens_from};

verus! {

/// One read from a port: a chunk of bytes (possibly empty), a timeout
/// with nothing to hand over, or a failure described in words.
pub enum PortRead {
    Data(Vec<u8>),
    TimedOut,
    Failed(String),
}

/// One write to a port: taken, or failed with a description.
pub enum PortWrite {
    Accepted,
    Failed(String),
}

/// The state of a faithfully echoing device: the four thresholds it
/// holds, the oscillator phases behind its telemetry, the bytes queued
/// for the host to read, and the log of threshold writes it accepted.
#[verifier::ext_equal]
pub struct EchoModel {
    pub thresholds: Seq<i32>,
    pub phases: Seq<int>,
    pub out: Seq<u8>,
    pub writes: Seq<(int, i32)>,
}

/// One oscillator step: the phase advances and wraps.
pub open spec fn adv_phase(p: int) -> int {
    (p + 7) % 2048
}

pub open spec fn adv_phases(ps: Seq<int>) -> Seq<int> {
    ps.map_values(|p: int| adv_phase(p))
}

/// A triangle wave over the phase, spanning the sensor range 0..=1023.
pub open spec fn tri(p: int) -> int {
    if p < 1024 {
        p
    } else {
        2047 - p
    }
}

/// The telemetry sample the simulated device reports at these phases.
pub open spec fn sim_values(ps: Seq<int>) -> Seq<i32> {
    ps.map_values(|p: int| tri(p) as i32)
}

/// A response line: the tag, four rendered values, single spaces
/// between, and the terminator.
pub open spec fn line5(tag: u8, vals: Seq<i32>) -> Seq<u8> {
    seq![tag] + seq![32u8] + render_int(vals[0] as int) + seq![32u8] + render_int(
        vals[1] as int,
    ) + seq![32u8] + render_int(vals[2] as int) + seq![32u8] + render_int(vals[3] as int)
        + seq![10u8]
}

/// What the simulated device does with one written line: a telemetry
/// query, a threshold query, a threshold write, or nothing it knows.
pub open spec fn echo_write(m: EchoModel, data: Seq<u8>) -> EchoModel {
    let ts = tokens(data);
    if ts == seq![seq![118u8]] {
        let np = adv_phases(m.phases);
        EchoModel {
            thresholds: m.thresholds,
            phases: np,
            out: m.out + line5(118, sim_values(np)),
            writes: m.writes,
        }
    } else if ts == seq![seq![116u8]] {
        EchoModel {
            thresholds: m.thresholds,
            phases: m.phases,
            out: m.out + line5(116, m.thresholds),
            writes: m.writes,
        }
    } else if ts.len() == 2 && parse_usize(ts[0]) is Some && parse_i32(ts[1]) is Some {
        let idx = parse_usize(ts[0]).unwrap();
        let v = parse_i32(ts[1]).unwrap();
        let nt = if idx < 4 {
            m.thresholds.update(idx as int, v)
        } else {
            m.thresholds
        };
        let nw = if idx < 4 {
            m.writes.push((idx as int, v))
        } else {
            m.writes
        };
        EchoModel { thresholds: nt, phases: m.phases, out: m.out + line5(116, nt), writes: nw }
    } else {
        m
    }
}

/// Exactly one line is queued: it ends with the terminator, which
/// occurs nowhere else in it.
pub open spec fn one_line(out: Seq<u8>) -> bool {
    out.len() > 0 && out.last() == 10 && forall|i: int| 0 <= i < out.len() - 1 ==> out[i] != 10
}

/// A response line tokenizes to its tag and its four rendered values,
/// holds its terminator last and nowhere else, and is short.
pub proof fn lemma_line5(tag: u8, vals: Seq<i32>)
    requires
        vals.len() == 4,
        !is_ws(tag),
    ensures
        one_line(line5(tag, vals)),
        line5(tag, vals).len() <= 54,
        tokens(line5(tag, vals)) == seq![
            seq![tag],
            render_int(vals[0] as int),
            render_int(vals[1] as int),
            render_int(vals[2] as int),
            render_int(vals[3] as int),
        ],
{
    let r0 = render_int(vals[0] as int);
    let r1 = render_int(vals[1] as int);
    let r2 = render_int(vals[2] as int);
    let r3 = render_int(vals[3] as int);
    lemma_render_no_ws(vals[0] as int);
    lemma_render_no_ws(vals[1] as int);
    lemma_render_no_ws(vals[2] as int);
    lemma_render_no_ws(vals[3] as int);
    lemma_render_i32_len(vals[0]);
    lemma_render_i32_len(vals[1]);
    lemma_render_i32_len(vals[2]);
    lemma_render_i32_len(vals[3]);
    let c4: Seq<u8> = seq![10u8];
    let c3 = seq![32u8] + (r3 + c4);
    let c2 = seq![32u8] + (r2 + c3);
    let c1 = seq![32u8] + (r1 + c2);
    let c0 = seq![32u8] + (r0 + c1);
    let s = line5(tag, vals);
    assert(s =~= seq![tag] + c0);
    assert(tokens_from(c4, 1) =~= Seq::<Seq<u8>>::empty());
    assert(tokens(c4) =~= Seq::<Seq<u8>>::empty());
    lemma_tokens_ws(32u8, r3 + c4);
    lemma_tokens_cons(r3, c4);
    lemma_tokens_ws(32u8, r2 + c3);
    lemma_tokens_cons(r2, c3);
    lemma_tokens_ws(32u8, r1 + c2);
    lemma_tokens_cons(r1, c2);
    lemma_tokens_ws(32u8, r0 + c1);
    lemma_tokens_cons(r0, c1);
    lemma_tokens_cons(seq![tag], c0);
    assert(tokens(s) == tokens(seq![tag] + c0));
    assert(tokens(s) =~= seq![seq![tag], r0, r1, r2, r3]);
    assert(one_line(s)) by {
        assert(s.last() == 10);
        assert forall|i: int| 0 <= i < s.len() - 1 implies s[i] != 10 by {
            if i >= 1 {
                let j = i - 1;
                assert(c0[j] == s[i]);
                if 1 <= j < 1 + r0.len() {
                    assert(c0[j] == r0[j - 1]);
                    assert(!is_ws(r0[j - 1]));
                } else if j >= 1 + r0.len() {
                    let k = j - 1 - r0.len();
                    assert(c0[j] == c1[k]);
                    if 1 <= k < 1 + r1.len() {
                        assert(c1[k] == r1[k - 1]);
                        assert(!is_ws(r1[k - 1]));
                    } else if k >= 1 + r1.len() {
                        let l = k - 1 - r1.len();
                        assert(c1[k] == c2[l]);
                        if 1 <= l < 1 + r2.len() {
                            assert(c2[l] == r2[l - 1]);
                            assert(!is_ws(r2[l - 1]));
                        } else if l >= 1 + r2.len() {
                            let m = l - 1 - r2.len();
                            assert(c2[l] == c3[m]);
                            if 1 <= m < 1 + r3.len() {
                                assert(c3[m] == r3[m - 1]);
                                assert(!is_ws(r3[m - 1]));
                            } else if m >= 1 + r3.len() {
                                assert(c3[m] == c4[m - 1 - r3.len()]);
                                assert(m - 1 - r3.len() == 0 ==> i == s.len() - 1);
                            }
                        }
                    }
                }
            }
        }
    }
}

/// The idle, well-formed state of the simulated device between
/// exchanges: nothing queued, four thresholds, four oscillators.
pub open spec fn echo_ready(m: EchoModel) -> bool {
    m.out.len() == 0 && m.thresholds.len() == 4 && m.phases.len() == 4
}

/// How many queued bytes one read hands over.
pub open spec fn chunk_len(out: Seq<u8>) -> int {
    if out.len() < 22 {
        out.len() as int
    } else {
        22
    }
}

/// What remains queued after one read.
pub open spec fn echo_after_read(m: EchoModel) -> EchoModel {
    EchoModel {
        thresholds: m.thresholds,
        phases: m.phases,
        out: m.out.skip(chunk_len(m.out)),
        writes: m.writes,
    }
}

/// A byte channel to the device. Its contracts say nothing of a real
/// channel's bytes; for the simulated device (`is_echo`) and the absent
/// stand-in (`rejects_reads`) they say exactly what each call does.
pub trait SensorPort {
    spec fn is_echo(&self) -> bool;

    spec fn echo(&self) -> EchoModel;

    spec fn rejects_reads(&self) -> bool;

    spec fn reject_message(&self) -> Seq<char>;

    fn read(&mut self) -> (r: PortRead)
        ensures
            final(self).is_echo() == old(self).is_echo(),
            final(self).rejects_reads() == old(self).rejects_reads(),
            final(self).reject_message() == old(self).reject_message(),
            old(self).is_echo() ==> {
                &&& final(self).echo() == echo_after_read(old(self).echo())
                &&& r matches PortRead::Data(d) && d@ == old(self).echo().out.take(
                    chunk_len(old(self).echo().out),
                )
            },
            old(self).rejects_reads() ==> final(self).echo() == old(self).echo() && (
            r matches PortRead::Failed(m) && m@ == old(self).reject_message()),
    ;

    fn write(&mut self, data: &[u8]) -> (r: PortWrite)
        ensures
            final(self).is_echo() == old(self).is_echo(),
            final(self).rejects_reads() == old(self).rejects_reads(),
            final(self).reject_message() == old(self).reject_message(),
            old(self).is_echo() ==> final(self).echo() == echo_write(old(self).echo(), data@)
                && r is Accepted,
            old(self).rejects_reads() ==> final(self).echo() == old(self).echo()
                && r is Accepted,
    ;
}

/// The stand-in used when no device could be opened: writes are taken
/// and discarded, reads always fail.
pub struct DummySerialPort;

impl SensorPort for DummySerialPort {
    open spec fn is_echo(&self) -> bool {
        false
    }

    open spec fn echo(&self) -> EchoModel {
        EchoModel {
            thresholds: Seq::empty(),
            phases: Seq::empty(),
            out: Seq::empty(),
            writes: Seq::empty(),
        }
    }

    open spec fn rejects_reads(&self) -> bool {
        true
    }

    open spec fn reject_message(&self) -> Seq<char> {
        "Dummy serial port - no data available"@
    }

    fn read(&mut self) -> (r: PortRead) {
        PortRead::Failed(String::from_str("Dummy serial port - no data available"))
    }

    fn write(&mut self, _data: &[u8]) -> (r: PortWrite) {
        PortWrite::Accepted
    }
}

/// The simulated device: echoes threshold writes, reports thresholds on
/// request, and answers telemetry queries from integer oscillators.
pub struct MockSerialPort {
    thresholds: [i32; 4],
    read_buffer: Vec<u8>,
    phases: [u16; 4],
    writes: Ghost<Seq<(int, i32)>>,
}

impl MockSerialPort {
    pub fn new(initial_thresholds: [i32; 4]) -> (r: Self)
        ensures
            r.is_echo(),
            !r.rejects_reads(),
            r.echo() == (EchoModel {
                thresholds: initial_thresholds@,
                phases: seq![0int, 512int, 1024int, 1536int],
                out: Seq::empty(),
                writes: Seq::empty(),
            }),
    {
        let r = MockSerialPort {
            thresholds: initial_thresholds,
            read_buffer: Vec::new(),
            phases: [0u16, 512u16, 1024u16, 1536u16],
            writes: Ghost(Seq::empty()),
        };
        proof {
            assert(r.echo() =~~= EchoModel {
                thresholds: initial_thresholds@,
                phases: seq![0int, 512int, 1024int, 1536int],
                out: Seq::empty(),
                writes: Seq::empty(),
            });
        }
        r
    }

    /// Appends the response line `tag v0 v1 v2 v3\n` to the read queue.
    fn enqueue_line5(&mut self, tag: u8)
        ensures
            final(self).thresholds == old(self).thresholds,
            final(self).phases == old(self).phases,
            final(self).writes == old(self).writes,
            final(self).read_buffer@ == old(self).read_buffer@ + line5(
                tag,
                old(self).thresholds@,
            ),
    {
        let mut line: Vec<u8> = Vec::new();
        line.push(tag);
        line.push(32u8);
        push_dec_i32(&mut line, self.thresholds[0]);
        line.push(32u8);
        push_dec_i32(&mut line, self.thresholds[1]);
        line.push(32u8);
        push_dec_i32(&mut line, self.thresholds[2]);
        line.push(32u8);
        push_dec_i32(&mut line, self.thresholds[3]);
        line.push(10u8);
        proof {
            assert(line@ =~= line5(tag, self.thresholds@));
        }
        self.read_buffer.append(&mut line);
    }
}

impl SensorPort for MockSerialPort {
    closed spec fn is_echo(&self) -> bool {
        true
    }

    closed spec fn echo(&self) -> EchoModel {
        EchoModel {
            thresholds: self.thresholds@,
            phases: self.phases@.map_values(|p: u16| p as int),
            out: self.read_buffer@,
            writes: self.writes@,
        }
    }

    closed spec fn rejects_reads(&self) -> bool {
        false
    }

    closed spec fn reject_message(&self) -> Seq<char> {
        Seq::empty()
    }

    fn read(&mut self) -> (r: PortRead) {
        let len = self.read_buffer.len();
        let k = if len < 22 {
            len
        } else {
            22
        };
        let mut data: Vec<u8> = Vec::new();
        let mut i: usize = 0;
        while i < k
            invariant
                0 <= i <= k,
                k <= self.read_buffer@.len(),
                data@ == self.read_buffer@.take(i as int),
                self == old(self),
            decreases k - i,
        {
            let b = self.read_buffer[i];
            data.push(b);
            proof {
                assert(data@ =~= self.read_buffer@.take(i as int + 1));
            }
            i += 1;
        }
        let mut rest: Vec<u8> = Vec::new();
        let mut j: usize = k;
        while j < len
            invariant
                k <= j <= len,
                len == self.read_buffer@.len(),
                rest@ == self.read_buffer@.subrange(k as int, j as int),
                self == old(self),
            decreases len - j,
        {
            let b = self.read_buffer[j];
            rest.push(b);
            proof {
                assert(rest@ =~= self.read_buffer@.subrange(k as int, j as int + 1));
            }
            j += 1;
        }
        self.read_buffer = rest;
        proof {
            assert(self.read_buffer@ =~= old(self).read_buffer@.skip(
                chunk_len(old(self).read_buffer@),
            ));
            assert(self.echo() =~~= echo_after_read(old(self).echo()));
            assert(data@ =~= old(self).echo().out.take(chunk_len(old(self).echo().out)));
        }
        PortRead::Data(data)
    }

    fn write(&mut self, data: &[u8]) -> (r: PortWrite) {
        let ts = tokenize(data);
        let ghost tks = tokens(data@);
        if ts.len() == 1 && ts[0].len() == 1 && ts[0][0] == 118 {
            proof {
                assert(ts@.map_values(|v: Vec<u8>| v@)[0] == tks[0]);
                assert(tks[0] =~= seq![118u8]);
                assert(tks =~= seq![seq![118u8]]);
            }
            let p0 = ((self.phases[0] as u32 + 7) % 2048) as u16;
            let p1 = ((self.phases[1] as u32 + 7) % 2048) as u16;
            let p2 = ((self.phases[2] as u32 + 7) % 2048) as u16;
            let p3 = ((self.phases[3] as u32 + 7) % 2048) as u16;
            self.phases = [p0, p1, p2, p3];
            let v0 = tri_sample(p0);
            let v1 = tri_sample(p1);
            let v2 = tri_sample(p2);
            let v3 = tri_sample(p3);
            let mut line: Vec<u8> = Vec::new();
            line.push(118u8);
            line.push(32u8);
            push_dec_i32(&mut line, v0);
            line.push(32u8);
            push_dec_i32(&mut line, v1);
            line.push(32u8);
            push_dec_i32(&mut line, v2);
            line.push(32u8);
            push_dec_i32(&mut line, v3);
            line.push(10u8);
            proof {
                assert(self.phases@.map_values(|p: u16| p as int) =~= adv_phases(
                    old(self).phases@.map_values(|p: u16| p as int),
                ));
                assert(line@ =~= line5(
                    118,
                    sim_values(self.phases@.map_values(|p: u16| p as int)),
                ));
            }
            self.read_buffer.append(&mut line);
            proof {
                assert(self.echo() =~~= echo_write(old(self).echo(), data@));
            }
            PortWrite::Accepted
        } else if ts.len() == 1 && ts[0].len() == 1 && ts[0][0] == 116 {
            proof {
                assert(ts@.map_values(|v: Vec<u8>| v@)[0] == tks[0]);
                assert(tks[0] =~= seq![116u8]);
                assert(tks =~= seq![seq![116u8]]);
                assert(seq![seq![116u8]][0] != seq![seq![118u8]][0]);
                assert(!(tks == seq![seq![118u8]]));
            }
            self.enqueue_line5(116u8);
            proof {
                assert(self.echo() =~~= echo_write(old(self).echo(), data@));
            }
            PortWrite::Accepted
        } else {
            proof {
                if tks == seq![seq![118u8]] {
                    assert(ts@.map_values(|v: Vec<u8>| v@).len() == 1);
                    assert(ts@.map_values(|v: Vec<u8>| v@)[0] == tks[0]);
                    assert(ts@[0]@ == seq![118u8]);
                    assert(false);
                }
                if tks == seq![seq![116u8]] {
                    assert(ts@.map_values(|v: Vec<u8>| v@).len() == 1);
                    assert(ts@.map_values(|v: Vec<u8>| v@)[0] == tks[0]);
                    assert(ts@[0]@ == seq![116u8]);
                    assert(false);
                }
            }
            if ts.len() == 2 {
                proof {
                    assert(ts@.map_values(|v: Vec<u8>| v@).len() == 2);
                    assert(ts@.map_values(|v: Vec<u8>| v@)[0] == tks[0]);
                    assert(ts@.map_values(|v: Vec<u8>| v@)[1] == tks[1]);
                }
                let idx_p = parse_usize_bytes(ts[0].as_slice());
                let val_p = parse_i32_bytes(ts[1].as_slice());
                match (idx_p, val_p) {
                    (Some(idx), Some(val)) => {
                        if idx < 4 {
                            let mut t = self.thresholds;
                            t[idx] = val;
                            self.thresholds = t;
                            proof {
                                self.writes@ = old(self).writes@.push((idx as int, val));
                            }
                        }
                        self.enqueue_line5(116u8);
                        proof {
                            assert(self.echo() =~~= echo_write(old(self).echo(), data@));
                        }
                        PortWrite::Accepted
                    },
                    _ => {
                        proof {
                            assert(self.echo() =~~= echo_write(old(self).echo(), data@));
                        }
                        PortWrite::Accepted
                    },
                }
            } else {
                proof {
                    assert(ts@.map_values(|v: Vec<u8>| v@).len() == ts@.len());
                    assert(self.echo() =~~= echo_write(old(self).echo(), data@));
                }
                PortWrite::Accepted
            }
        }
    }
}

/// Relies on serialport's `TTYPort`: the opened handle to a real
/// serial channel, declared so a field can hold it; nothing of its
/// inside is assumed.
#[verifier::external_type_specification]
#[verifier::external_body]
pub struct ExTTYPort(serialport::TTYPort);

/// The adapter around a real serial channel. Nothing is assumed of the
/// bytes it carries: every contract about it is conditioned on flags
/// that are false here.
pub struct SerialPortAdapter {
    inner: serialport::TTYPort,
}

impl SerialPortAdapter {
    pub fn new(inner: serialport::TTYPort) -> (r: Self)
        ensures
            !r.is_echo(),
            !r.rejects_reads(),
    {
        SerialPortAdapter { inner }
    }
}

impl SensorPort for SerialPortAdapter {
    open spec fn is_echo(&self) -> bool {
        false
    }

    open spec fn echo(&self) -> EchoModel {
        EchoModel {
            thresholds: Seq::empty(),
            phases: Seq::empty(),
            out: Seq::empty(),
            writes: Seq::empty(),
        }
    }

    open spec fn rejects_reads(&self) -> bool {
        false
    }

    open spec fn reject_message(&self) -> Seq<char> {
        Seq::empty()
    }

    fn read(&mut self) -> (r: PortRead) {
        self.channel_read()
    }

    fn write(&mut self, data: &[u8]) -> (r: PortWrite) {
        self.channel_write(data)
    }
}

impl SerialPortAdapter {
    /// Relies on serialport's `io::Read` impl for `TTYPort`: one read
    /// fills a prefix of the buffer and returns its length, or fails,
    /// with the `TimedOut` kind once the port's own timeout lapses.
    #[verifier::external_body]
    fn channel_read(&mut self) -> (r: PortRead)
        ensures
            r matches PortRead::Data(d) ==> d@.len() <= 22,
    {
        let mut buf = vec![0u8; 22];
        match std::io::Read::read(&mut self.inner, &mut buf) {
            Ok(n) => {
                buf.truncate(n);
                PortRead::Data(buf)
            },
            Err(e) => {
                if e.kind() == std::io::ErrorKind::TimedOut {
                    PortRead::TimedOut
                } else {
                    PortRead::Failed(e.to_string())
                }
            },
        }
    }

    /// Relies on serialport's `io::Write` impl for `TTYPort`: one write
    /// takes the bytes or fails.
    #[verifier::external_body]
    fn channel_write(&mut self, data: &[u8]) -> (r: PortWrite)
        ensures
            r is Accepted || r is Failed,
    {
        match std::io::Write::write(&mut self.inner, data) {
            Ok(_) => PortWrite::Accepted,
            Err(e) => PortWrite::Failed(e.to_string()),
        }
    }
}

/// The port a running system holds: one of the three channel kinds,
/// chosen at startup.
pub enum DevicePort {
    Simulated(MockSerialPort),
    Absent(DummySerialPort),
    Attached(SerialPortAdapter),
}

impl SensorPort for DevicePort {
    open spec fn is_echo(&self) -> bool {
        match self {
            DevicePort::Simulated(m) => m.is_echo(),
            DevicePort::Absent(d) => d.is_echo(),
            DevicePort::Attached(a) => a.is_echo(),
        }
    }

    open spec fn echo(&self) -> EchoModel {
        match self {
            DevicePort::Simulated(m) => m.echo(),
            DevicePort::Absent(d) => d.echo(),
            DevicePort::Attached(a) => a.echo(),
        }
    }

    open spec fn rejects_reads(&self) -> bool {
        match self {
            DevicePort::Simulated(m) => m.rejects_reads(),
            DevicePort::Absent(d) => d.rejects_reads(),
            DevicePort::Attached(a) => a.rejects_reads(),
        }
    }

    open spec fn reject_message(&self) -> Seq<char> {
        match self {
            DevicePort::Simulated(m) => m.reject_message(),
            DevicePort::Absent(d) => d.reject_message(),
            DevicePort::Attached(a) => a.reject_message(),
        }
    }

    fn read(&mut self) -> (r: PortRead) {
        match self {
            DevicePort::Simulated(m) => m.read(),
            DevicePort::Absent(d) => d.read(),
            DevicePort::Attached(a) => a.read(),
        }
    }

    fn write(&mut self, data: &[u8]) -> (r: PortWrite) {
        match self {
            DevicePort::Simulated(m) => m.write(data),
            DevicePort::Absent(d) => d.write(data),
            DevicePort::Attached(a) => a.write(data),
        }
    }
}

/// The triangle-wave sample at one phase.
fn tri_sample(p: u16) -> (r: i32)
    ensures
        r as int == tri(p as int),
{
    if p < 1024 {
        p as i32
    } else {
        2047i32 - (p as i32)
    }
}

} // verus!
