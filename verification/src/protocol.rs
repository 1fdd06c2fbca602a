//! The line protocol: reading one terminated line from the port, and
//! the four typed device operations with their response validation.

use vstd::prelude::*;
use vstd::string::StringExecFns;

use crate::device::{adv_phases, echo_ready, line5, lemma_line5, one_line, EchoModel, PortRead,
    PortWrite, SensorPort, sim_values};
use crate::text::{lemma_parse_render_i32, lemma_parse_render_usize, parse_i32_bytes,
    push_dec_i32, push_dec_u64, render_chars, render_int, tokenize, tokens};

verus! {

/// Everything a device exchange can fail with; `text` renders each the
/// way clients see it.
#[derive(Debug)]
pub enum DeviceError {
    Timeout { message: String },
    Io { message: String },
    BadSensorFormat,
    SensorParse,
    BadThresholdFormat,
    ThresholdParse,
    Validation { expected: i32, got: i32 },
}

impl DeviceError {
    /// The description shown to clients.
    pub open spec fn text_spec(&self) -> Seq<char> {
        match self {
            DeviceError::Timeout { message } => message@,
            DeviceError::Io { message } => message@,
            DeviceError::BadSensorFormat => "Invalid response format"@,
            DeviceError::SensorParse => "Failed to parse sensor value"@,
            DeviceError::BadThresholdFormat => "Invalid threshold response format"@,
            DeviceError::ThresholdParse => "Failed to parse threshold value"@,
            DeviceError::Validation { expected, got } => "Threshold validation failed: expected "@
                + render_chars(*expected as int) + ", got "@ + render_chars(*got as int),
        }
    }

    pub fn text(&self) -> (r: String)
        ensures
            r@ == self.text_spec(),
    {
        match self {
            DeviceError::Timeout { message } => message.clone(),
            DeviceError::Io { message } => message.clone(),
            DeviceError::BadSensorFormat => String::from_str("Invalid response format"),
            DeviceError::SensorParse => String::from_str("Failed to parse sensor value"),
            DeviceError::BadThresholdFormat => String::from_str(
                "Invalid threshold response format",
            ),
            DeviceError::ThresholdParse => String::from_str("Failed to parse threshold value"),
            DeviceError::Validation { expected, got } => {
                let mut s = String::from_str("Threshold validation failed: expected ");
                crate::text::push_int_chars(&mut s, *expected);
                s.append(", got ");
                crate::text::push_int_chars(&mut s, *got);
                s
            },
        }
    }
}

/// The length of the line up to and including its first terminator.
fn line_end(buf: &Vec<u8>) -> (r: Option<usize>)
    ensures
        match r {
            Some(k) => 1 <= k <= buf@.len() && buf@[k - 1] == 10 && forall|j: int|
                0 <= j < k - 1 ==> buf@[j] != 10,
            None => forall|j: int| 0 <= j < buf@.len() ==> buf@[j] != 10,
        },
{
    let n = buf.len();
    let mut i: usize = 0;
    while i < n
        invariant
            0 <= i <= n,
            n == buf@.len(),
            forall|j: int| 0 <= j < i ==> buf@[j] != 10,
        decreases n - i,
    {
        if buf[i] == 10 {
            return Some(i + 1);
        }
        i += 1;
    }
    None
}

/// Reads one terminated line: chunks accumulate until the terminator
/// arrives; a timeout with nothing accumulated fails with the given
/// description; a timeout after partial bytes accepts them as the line.
/// A port that keeps handing over chunks without ever terminating a
/// line is cut off after a generous retry budget, as a timeout.
pub fn read_serial_line<P: SensorPort>(port: &mut P, timeout_error_message: &str) -> (r: Result<
    Vec<u8>,
    DeviceError,
>)
    ensures
        final(port).is_echo() == old(port).is_echo(),
        final(port).rejects_reads() == old(port).rejects_reads(),
        final(port).reject_message() == old(port).reject_message(),
        old(port).is_echo() && one_line(old(port).echo().out) && old(port).echo().out.len()
            <= 4096 ==> {
            &&& r matches Ok(line) && line@ == old(port).echo().out
            &&& final(port).echo() == (EchoModel {
                thresholds: old(port).echo().thresholds,
                phases: old(port).echo().phases,
                out: Seq::empty(),
                writes: old(port).echo().writes,
            })
        },
        old(port).rejects_reads() ==> final(port).echo() == old(port).echo() && (r matches Err(
            DeviceError::Io { message },
        ) && message@ == old(port).reject_message()),
        r matches Err(e) ==> (e is Timeout || e is Io),
        r matches Err(DeviceError::Timeout { message }) ==> message@ == timeout_error_message@,
{
    let ghost m0 = old(port).echo();
    let ghost live = old(port).is_echo() && one_line(m0.out) && m0.out.len() <= 4096;
    let mut line: Vec<u8> = Vec::new();
    let mut budget: u32 = 1000000;
    while budget > 0
        invariant
            port.is_echo() == old(port).is_echo(),
            port.rejects_reads() == old(port).rejects_reads(),
            port.reject_message() == old(port).reject_message(),
            live == (old(port).is_echo() && one_line(m0.out) && m0.out.len() <= 4096),
            m0 == old(port).echo(),
            old(port).rejects_reads() ==> port.echo() == old(port).echo(),
            live ==> {
                &&& port.echo().thresholds == m0.thresholds
                &&& port.echo().phases == m0.phases
                &&& port.echo().writes == m0.writes
                &&& line@ + port.echo().out == m0.out
                &&& port.echo().out.len() > 0
                &&& forall|j: int| 0 <= j < line@.len() ==> line@[j] != 10
                &&& budget as int >= 1000000 - line@.len()
            },
            old(port).rejects_reads() ==> budget == 1000000,
        decreases budget,
    {
        match port.read() {
            PortRead::Data(chunk) => {
                proof {
                    if live {
                        assert(chunk@.len() > 0);
                    }
                }
                if chunk.len() > 0 {
                    let mut c = chunk;
                    line.append(&mut c);
                    match line_end(&line) {
                        Some(k) => {
                            proof {
                                if live {
                                    let out0 = old(port).echo().out;
                                    assert(line@ =~= out0.take(line@.len() as int));
                                    assert(out0[out0.len() - 1] == 10);
                                    assert(k == out0.len());
                                    assert(line@.len() == out0.len());
                                    assert(line@ =~= out0);
                                    assert(line@.take(k as int) =~= out0);
                                    assert(port.echo().out =~= Seq::<u8>::empty());
                                    assert(port.echo() =~~= (EchoModel {
                                        thresholds: m0.thresholds,
                                        phases: m0.phases,
                                        out: Seq::empty(),
                                        writes: m0.writes,
                                    }));
                                }
                            }
                            line.truncate(k);
                            return Ok(line);
                        },
                        None => {
                            proof {
                                if live {
                                    let out0 = old(port).echo().out;
                                    assert(line@ =~= out0.take(line@.len() as int));
                                    assert(port.echo().out.len() > 0) by {
                                        if port.echo().out.len() == 0 {
                                            assert(line@ =~= out0);
                                            assert(line@[out0.len() - 1] == 10);
                                        }
                                    }
                                }
                            }
                        },
                    }
                }
            },
            PortRead::TimedOut => {
                if line.len() > 0 {
                    return Ok(line);
                }
                return Err(DeviceError::Timeout { message: timeout_error_message.to_owned() });
            },
            PortRead::Failed(m) => {
                return Err(DeviceError::Io { message: m });
            },
        }
        budget -= 1;
    }
    Err(DeviceError::Timeout { message: timeout_error_message.to_owned() })
}

/// Queries one telemetry sample: sends the telemetry request and
/// expects a response of five fields tagged `v`, the four values being
/// the live sensor readings.
pub fn read_sensor_values<P: SensorPort>(port: &mut P) -> (r: Result<[i32; 4], DeviceError>)
    ensures
        final(port).is_echo() == old(port).is_echo(),
        final(port).rejects_reads() == old(port).rejects_reads(),
        final(port).reject_message() == old(port).reject_message(),
        old(port).is_echo() && echo_ready(old(port).echo()) ==> {
            &&& r matches Ok(vals) && vals@ == sim_values(adv_phases(old(port).echo().phases))
            &&& final(port).echo() == (EchoModel {
                thresholds: old(port).echo().thresholds,
                phases: adv_phases(old(port).echo().phases),
                out: Seq::empty(),
                writes: old(port).echo().writes,
            })
        },
        old(port).rejects_reads() ==> final(port).echo() == old(port).echo() && (r matches Err(
            DeviceError::Io { message },
        ) && message@ == old(port).reject_message()),
{
    let ghost m0 = old(port).echo();
    let ghost live = old(port).is_echo() && echo_ready(m0);
    let mut cmd: Vec<u8> = Vec::new();
    cmd.push(118u8);
    cmd.push(10u8);
    match port.write(cmd.as_slice()) {
        PortWrite::Accepted => {},
        PortWrite::Failed(m) => {
            return Err(DeviceError::Io { message: m });
        },
    }
    proof {
        if old(port).is_echo() {
            assert(cmd@ =~= seq![118u8] + seq![10u8]);
            crate::text::lemma_tokens_cons(seq![118u8], seq![10u8]);
            assert(crate::text::tokens_from(seq![10u8], 1) =~= Seq::<Seq<u8>>::empty());
            assert(tokens(seq![10u8]) =~= Seq::<Seq<u8>>::empty());
            assert(tokens(cmd@) =~= seq![seq![118u8]]);
            if live {
                lemma_line5(118u8, sim_values(adv_phases(m0.phases)));
                assert(port.echo().out =~= line5(118, sim_values(adv_phases(m0.phases))));
            }
        }
    }
    let line = match read_serial_line(port, "Timeout reading sensor values") {
        Ok(l) => l,
        Err(e) => {
            return Err(e);
        },
    };
    let ghost vals = sim_values(adv_phases(m0.phases));
    let ts = tokenize(line.as_slice());
    proof {
        if live {
            assert(line@ == line5(118, vals));
            assert(ts@.map_values(|v: Vec<u8>| v@) == tokens(line5(118, vals)));
            assert(ts@.map_values(|v: Vec<u8>| v@).len() == 5);
            assert(ts@.map_values(|v: Vec<u8>| v@)[0] == seq![118u8]);
            assert(ts@.map_values(|v: Vec<u8>| v@)[1] == render_int(vals[0] as int));
            assert(ts@.map_values(|v: Vec<u8>| v@)[2] == render_int(vals[1] as int));
            assert(ts@.map_values(|v: Vec<u8>| v@)[3] == render_int(vals[2] as int));
            assert(ts@.map_values(|v: Vec<u8>| v@)[4] == render_int(vals[3] as int));
            lemma_parse_render_i32(vals[0]);
            lemma_parse_render_i32(vals[1]);
            lemma_parse_render_i32(vals[2]);
            lemma_parse_render_i32(vals[3]);
        }
    }
    if ts.len() != 5 {
        return Err(DeviceError::BadSensorFormat);
    }
    let t0 = &ts[0];
    if !(t0.len() == 1 && t0[0] == 118) {
        proof {
            if live {
                assert(ts@[0]@ == seq![118u8]);
            }
        }
        return Err(DeviceError::BadSensorFormat);
    }
    let v0 = match parse_i32_bytes(ts[1].as_slice()) {
        Some(v) => v,
        None => {
            return Err(DeviceError::SensorParse);
        },
    };
    let v1 = match parse_i32_bytes(ts[2].as_slice()) {
        Some(v) => v,
        None => {
            return Err(DeviceError::SensorParse);
        },
    };
    let v2 = match parse_i32_bytes(ts[3].as_slice()) {
        Some(v) => v,
        None => {
            return Err(DeviceError::SensorParse);
        },
    };
    let v3 = match parse_i32_bytes(ts[4].as_slice()) {
        Some(v) => v,
        None => {
            return Err(DeviceError::SensorParse);
        },
    };
    let out = [v0, v1, v2, v3];
    proof {
        if live {
            assert(out@ =~= vals);
        }
    }
    Ok(out)
}

/// Sets one threshold: sends `index value`, expects the echoed
/// threshold line tagged `t`, and fails unless the echoed value at
/// `index` is exactly the one requested.
pub fn set_threshold<P: SensorPort>(
    port: &mut P,
    threshold_index: usize,
    value: i32,
) -> (r: Result<(), DeviceError>)
    requires
        threshold_index < 4,
    ensures
        final(port).is_echo() == old(port).is_echo(),
        final(port).rejects_reads() == old(port).rejects_reads(),
        final(port).reject_message() == old(port).reject_message(),
        old(port).is_echo() && echo_ready(old(port).echo()) ==> {
            &&& r is Ok
            &&& final(port).echo() == (EchoModel {
                thresholds: old(port).echo().thresholds.update(threshold_index as int, value),
                phases: old(port).echo().phases,
                out: Seq::empty(),
                writes: old(port).echo().writes.push((threshold_index as int, value)),
            })
        },
        old(port).rejects_reads() ==> final(port).echo() == old(port).echo() && (r matches Err(
            DeviceError::Io { message },
        ) && message@ == old(port).reject_message()),
{
    let ghost m0 = old(port).echo();
    let ghost live = old(port).is_echo() && echo_ready(m0);
    let mut cmd: Vec<u8> = Vec::new();
    push_dec_u64(&mut cmd, threshold_index as u64);
    cmd.push(32u8);
    push_dec_i32(&mut cmd, value);
    cmd.push(10u8);
    proof {
        crate::text::lemma_render_no_ws(threshold_index as int);
        crate::text::lemma_render_no_ws(value as int);
        let ri = render_int(threshold_index as int);
        let rv = render_int(value as int);
        assert(cmd@ =~= ri + (seq![32u8] + (rv + seq![10u8])));
        assert(crate::text::tokens_from(seq![10u8], 1) =~= Seq::<Seq<u8>>::empty());
        assert(tokens(seq![10u8]) =~= Seq::<Seq<u8>>::empty());
        crate::text::lemma_tokens_cons(rv, seq![10u8]);
        crate::text::lemma_tokens_ws(32u8, rv + seq![10u8]);
        crate::text::lemma_tokens_cons(ri, seq![32u8] + (rv + seq![10u8]));
        assert(tokens(cmd@) =~= seq![ri, rv]);
        lemma_parse_render_usize(threshold_index);
        lemma_parse_render_i32(value);
    }
    let ghost nt = m0.thresholds.update(threshold_index as int, value);
    match port.write(cmd.as_slice()) {
        PortWrite::Accepted => {},
        PortWrite::Failed(m) => {
            return Err(DeviceError::Io { message: m });
        },
    }
    proof {
        if live {
            assert(tokens(cmd@).len() == 2);
            assert(port.echo().thresholds == nt);
            lemma_line5(116u8, nt);
            assert(port.echo().out =~= line5(116, nt));
        }
    }
    let line = match read_serial_line(port, "Timeout reading threshold response") {
        Ok(l) => l,
        Err(e) => {
            return Err(e);
        },
    };
    let ts = tokenize(line.as_slice());
    proof {
        if live {
            assert(line@ == line5(116, nt));
            assert(ts@.map_values(|v: Vec<u8>| v@) == tokens(line5(116, nt)));
            assert(ts@.map_values(|v: Vec<u8>| v@).len() == 5);
            assert(ts@.map_values(|v: Vec<u8>| v@)[0] == seq![116u8]);
            assert(ts@.map_values(|v: Vec<u8>| v@)[1] == render_int(nt[0] as int));
            assert(ts@.map_values(|v: Vec<u8>| v@)[2] == render_int(nt[1] as int));
            assert(ts@.map_values(|v: Vec<u8>| v@)[3] == render_int(nt[2] as int));
            assert(ts@.map_values(|v: Vec<u8>| v@)[4] == render_int(nt[3] as int));
            lemma_parse_render_i32(nt[threshold_index as int]);
        }
    }
    if ts.len() != 5 {
        return Err(DeviceError::BadThresholdFormat);
    }
    let t0 = &ts[0];
    if !(t0.len() == 1 && t0[0] == 116) {
        proof {
            if live {
                assert(ts@[0]@ == seq![116u8]);
            }
        }
        return Err(DeviceError::BadThresholdFormat);
    }
    let echoed = match parse_i32_bytes(ts[threshold_index + 1].as_slice()) {
        Some(v) => v,
        None => {
            return Err(DeviceError::ThresholdParse);
        },
    };
    if echoed != value {
        proof {
            if live {
                assert(nt[threshold_index as int] == value);
            }
        }
        return Err(DeviceError::Validation { expected: value, got: echoed });
    }
    Ok(())
}

/// Sets all four thresholds in index order, stopping at the first
/// failure: the indices past it are left as they were.
pub fn set_all_thresholds<P: SensorPort>(port: &mut P, thresholds: [i32; 4]) -> (r: Result<
    (),
    DeviceError,
>)
    ensures
        final(port).is_echo() == old(port).is_echo(),
        final(port).rejects_reads() == old(port).rejects_reads(),
        final(port).reject_message() == old(port).reject_message(),
        old(port).is_echo() && echo_ready(old(port).echo()) ==> {
            &&& r is Ok
            &&& final(port).echo() == (EchoModel {
                thresholds: thresholds@,
                phases: old(port).echo().phases,
                out: Seq::empty(),
                writes: old(port).echo().writes + seq![
                    (0int, thresholds@[0]),
                    (1int, thresholds@[1]),
                    (2int, thresholds@[2]),
                    (3int, thresholds@[3]),
                ],
            })
        },
        old(port).rejects_reads() ==> final(port).echo() == old(port).echo() && (r matches Err(
            DeviceError::Io { message },
        ) && message@ == old(port).reject_message()),
{
    let ghost m0 = old(port).echo();
    let ghost live = old(port).is_echo() && echo_ready(m0);
    match set_threshold(port, 0, thresholds[0]) {
        Ok(()) => {},
        Err(e) => {
            return Err(e);
        },
    }
    match set_threshold(port, 1, thresholds[1]) {
        Ok(()) => {},
        Err(e) => {
            return Err(e);
        },
    }
    match set_threshold(port, 2, thresholds[2]) {
        Ok(()) => {},
        Err(e) => {
            return Err(e);
        },
    }
    match set_threshold(port, 3, thresholds[3]) {
        Ok(()) => {},
        Err(e) => {
            return Err(e);
        },
    }
    proof {
        if live {
            assert(port.echo().thresholds =~= thresholds@);
            assert(port.echo().writes =~= m0.writes + seq![
                (0int, thresholds@[0]),
                (1int, thresholds@[1]),
                (2int, thresholds@[2]),
                (3int, thresholds@[3]),
            ]);
            assert(port.echo() =~~= (EchoModel {
                thresholds: thresholds@,
                phases: m0.phases,
                out: Seq::empty(),
                writes: m0.writes + seq![
                    (0int, thresholds@[0]),
                    (1int, thresholds@[1]),
                    (2int, thresholds@[2]),
                    (3int, thresholds@[3]),
                ],
            }));
        }
    }
    Ok(())
}

/// Queries the thresholds the device holds: sends the threshold
/// request and expects the threshold line tagged `t`.
pub fn get_current_thresholds_from_device<P: SensorPort>(port: &mut P) -> (r: Result<
    [i32; 4],
    DeviceError,
>)
    ensures
        final(port).is_echo() == old(port).is_echo(),
        final(port).rejects_reads() == old(port).rejects_reads(),
        final(port).reject_message() == old(port).reject_message(),
        old(port).is_echo() && echo_ready(old(port).echo()) ==> {
            &&& r matches Ok(vals) && vals@ == old(port).echo().thresholds
            &&& final(port).echo() == (EchoModel {
                thresholds: old(port).echo().thresholds,
                phases: old(port).echo().phases,
                out: Seq::empty(),
                writes: old(port).echo().writes,
            })
        },
        old(port).rejects_reads() ==> final(port).echo() == old(port).echo() && (r matches Err(
            DeviceError::Io { message },
        ) && message@ == old(port).reject_message()),
{
    let ghost m0 = old(port).echo();
    let ghost live = old(port).is_echo() && echo_ready(m0);
    let mut cmd: Vec<u8> = Vec::new();
    cmd.push(116u8);
    cmd.push(10u8);
    match port.write(cmd.as_slice()) {
        PortWrite::Accepted => {},
        PortWrite::Failed(m) => {
            return Err(DeviceError::Io { message: m });
        },
    }
    proof {
        if old(port).is_echo() {
            assert(cmd@ =~= seq![116u8] + seq![10u8]);
            crate::text::lemma_tokens_cons(seq![116u8], seq![10u8]);
            assert(crate::text::tokens_from(seq![10u8], 1) =~= Seq::<Seq<u8>>::empty());
            assert(tokens(seq![10u8]) =~= Seq::<Seq<u8>>::empty());
            assert(tokens(cmd@) =~= seq![seq![116u8]]);
            if live {
                lemma_line5(116u8, m0.thresholds);
                assert(port.echo().out =~= line5(116, m0.thresholds));
            }
        }
    }
    let line = match read_serial_line(port, "Timeout reading threshold values") {
        Ok(l) => l,
        Err(e) => {
            return Err(e);
        },
    };
    let ts = tokenize(line.as_slice());
    proof {
        if live {
            assert(line@ == line5(116, m0.thresholds));
            assert(ts@.map_values(|v: Vec<u8>| v@) == tokens(line5(116, m0.thresholds)));
            assert(ts@.map_values(|v: Vec<u8>| v@).len() == 5);
            assert(ts@.map_values(|v: Vec<u8>| v@)[0] == seq![116u8]);
            assert(ts@.map_values(|v: Vec<u8>| v@)[1] == render_int(m0.thresholds[0] as int));
            assert(ts@.map_values(|v: Vec<u8>| v@)[2] == render_int(m0.thresholds[1] as int));
            assert(ts@.map_values(|v: Vec<u8>| v@)[3] == render_int(m0.thresholds[2] as int));
            assert(ts@.map_values(|v: Vec<u8>| v@)[4] == render_int(m0.thresholds[3] as int));
            lemma_parse_render_i32(m0.thresholds[0]);
            lemma_parse_render_i32(m0.thresholds[1]);
            lemma_parse_render_i32(m0.thresholds[2]);
            lemma_parse_render_i32(m0.thresholds[3]);
        }
    }
    if ts.len() != 5 {
        return Err(DeviceError::BadThresholdFormat);
    }
    let t0 = &ts[0];
    if !(t0.len() == 1 && t0[0] == 116) {
        proof {
            if live {
                assert(ts@[0]@ == seq![116u8]);
            }
        }
        return Err(DeviceError::BadThresholdFormat);
    }
    let v0 = match parse_i32_bytes(ts[1].as_slice()) {
        Some(v) => v,
        None => {
            return Err(DeviceError::ThresholdParse);
        },
    };
    let v1 = match parse_i32_bytes(ts[2].as_slice()) {
        Some(v) => v,
        None => {
            return Err(DeviceError::ThresholdParse);
        },
    };
    let v2 = match parse_i32_bytes(ts[3].as_slice()) {
        Some(v) => v,
        None => {
            return Err(DeviceError::ThresholdParse);
        },
    };
    let v3 = match parse_i32_bytes(ts[4].as_slice()) {
        Some(v) => v,
        None => {
            return Err(DeviceError::ThresholdParse);
        },
    };
    let out = [v0, v1, v2, v3];
    proof {
        if live {
            assert(out@ =~= m0.thresholds);
        }
    }
    Ok(out)
}

} // verus!
