//! The command dispatcher: one command in, exactly one outcome out.
//! Throughout, the device is written before the store is touched, and
//! the store before any persistence is owed: a stored configuration
//! never claims a threshold the device refused.

use vstd::prelude::*;
use vstd::string::StringExecFns;

use crate::command::{build_msg_added, build_msg_changed_profile, build_msg_created_player,
    build_msg_current_fixed, build_msg_current_sync, build_msg_fix_failed,
    build_msg_invalid_player_profile, build_msg_profile_exists, build_msg_profile_not_found,
    build_msg_read_thresholds_failed, build_msg_removed, build_msg_set_all_failed,
    build_msg_set_default, build_msg_set_threshold_failed, build_msg_switched_player,
    build_msg_updated, cmd_resp_type, command_response, fail_resp, msg_added,
    msg_cannot_remove_current, msg_changed_profile, msg_created_player, msg_current_fixed,
    msg_current_sync, msg_index_range, msg_invalid_player_profile, msg_no_current_profile,
    msg_no_profile_for_player, msg_not_supported, msg_profile_exists, msg_profile_not_found,
    msg_read_thresholds_failed, msg_removed, msg_save_failed, msg_set_all_failed,
    msg_set_default, msg_set_threshold_failed, msg_stream_started, msg_stream_stopped,
    msg_switched_player, msg_updated, msg_use_stream, ok_resp, snapshot_of, Command, Response};
use crate::device::{adv_phases, echo_ready, sim_values, EchoModel, SensorPort};
use crate::protocol::{get_current_thresholds_from_device, read_sensor_values,
    set_all_thresholds, set_threshold};
use crate::store::Profiles;

verus! {

/// What one command produced: a finished response, or a response that
/// is owed a persistence write first. The caller of the dispatcher
/// saves the store and answers with the carried response, or with
/// `save_failed_response` when the write fails.
pub enum CmdOutcome {
    Done(Response),
    NeedsSave(Response),
}

/// Nothing about the store is different.
pub open spec fn store_unchanged(s0: &Profiles, s1: &Profiles) -> bool {
    s1.profile_entries() == s0.profile_entries() && s1.player_entries() == s0.player_entries()
        && s1.current_profile@ == s0.current_profile@ && s1.default_profile@
        == s0.default_profile@ && s1.current_player@ == s0.current_player@
}

/// The port is still the kind of port it was.
pub open spec fn flags_kept<P: SensorPort>(p0: &P, p1: &P) -> bool {
    p1.is_echo() == p0.is_echo() && p1.rejects_reads() == p0.rejects_reads()
        && p1.reject_message() == p0.reject_message()
}

/// A simulated device sitting idle between exchanges.
pub open spec fn port_idle<P: SensorPort>(p: &P) -> bool {
    p.is_echo() && echo_ready(p.echo())
}

/// The simulated device is exactly as it was.
pub open spec fn echo_kept<P: SensorPort>(p0: &P, p1: &P) -> bool {
    p0.is_echo() ==> p1.echo() == p0.echo()
}

/// The device state after four threshold writes in index order.
pub open spec fn echo_after_set_all<P: SensorPort>(p0: &P, thr: Seq<i32>) -> EchoModel {
    EchoModel {
        thresholds: thr,
        phases: p0.echo().phases,
        out: Seq::empty(),
        writes: p0.echo().writes + seq![
            (0int, thr[0]),
            (1int, thr[1]),
            (2int, thr[2]),
            (3int, thr[3]),
        ],
    }
}

/// What `UpdateThreshold` does: precondition failures answer without
/// touching anything; otherwise the one threshold goes to the device
/// first, and the store and a pending save follow only on its success.
pub open spec fn update_threshold_spec<P: SensorPort>(
    profile_name: Seq<char>,
    threshold_index: usize,
    value: i32,
    s0: &Profiles,
    s1: &Profiles,
    p0: &P,
    p1: &P,
    r: &CmdOutcome,
) -> bool {
    &&& flags_kept(p0, p1)
    &&& if !s0@.profiles.contains_key(profile_name) {
        &&& store_unchanged(s0, s1)
        &&& echo_kept(p0, p1)
        &&& r matches CmdOutcome::Done(resp) && fail_resp(resp, msg_profile_not_found(
            profile_name,
        ))
    } else if threshold_index >= 4 {
        &&& store_unchanged(s0, s1)
        &&& echo_kept(p0, p1)
        &&& r matches CmdOutcome::Done(resp) && fail_resp(resp, msg_index_range())
    } else {
        &&& match r {
            CmdOutcome::Done(resp) => store_unchanged(s0, s1) && !resp.success && resp.data
                is None && resp.sensor_values is None && cmd_resp_type(resp),
            CmdOutcome::NeedsSave(resp) => {
                &&& s1@.profiles == s0@.profiles.insert(
                    profile_name,
                    s0@.profiles[profile_name].update(threshold_index as int, value),
                )
                &&& s1.player_entries() == s0.player_entries()
                &&& s1.current_profile@ == s0.current_profile@
                &&& s1.default_profile@ == s0.default_profile@
                &&& s1.current_player@ == s0.current_player@
                &&& ok_resp(resp, msg_updated(threshold_index, value, profile_name), s1)
            },
        }
        &&& port_idle(p0) ==> r is NeedsSave && p1.echo() == (EchoModel {
            thresholds: p0.echo().thresholds.update(threshold_index as int, value),
            phases: p0.echo().phases,
            out: Seq::empty(),
            writes: p0.echo().writes.push((threshold_index as int, value)),
        })
        &&& p0.rejects_reads() ==> p1.echo() == p0.echo() && (r matches CmdOutcome::Done(resp)
            && fail_resp(resp, msg_set_threshold_failed(p0.reject_message())))
    }
}

pub fn update_threshold<P: SensorPort>(
    profiles: &mut Profiles,
    port: &mut P,
    profile_name: &String,
    threshold_index: usize,
    value: i32,
) -> (r: CmdOutcome)
    requires
        old(profiles).wf(),
    ensures
        final(profiles).wf(),
        update_threshold_spec(
            profile_name@,
            threshold_index,
            value,
            old(profiles),
            final(profiles),
            old(port),
            final(port),
            &r,
        ),
{
    if !profiles.has_profile(profile_name) {
        return CmdOutcome::Done(
            command_response(false, build_msg_profile_not_found(profile_name), None),
        );
    }
    if threshold_index >= 4 {
        return CmdOutcome::Done(
            command_response(false, String::from_str("Threshold index must be 0-3"), None),
        );
    }
    match set_threshold(port, threshold_index, value) {
        Ok(()) => {
            profiles.update_profile_threshold(profile_name, threshold_index, value);
            let snapshot = profiles.clone();
            CmdOutcome::NeedsSave(
                command_response(
                    true,
                    build_msg_updated(threshold_index, value, profile_name),
                    Some(snapshot),
                ),
            )
        },
        Err(e) => CmdOutcome::Done(
            command_response(false, build_msg_set_threshold_failed(e.text()), None),
        ),
    }
}

/// What `AddProfile` does: a fresh name is inserted and adopted as
/// current when none was set; a taken name fails without mutation. The
/// device is never consulted.
pub open spec fn add_profile_spec(
    name: Seq<char>,
    thresholds: Seq<i32>,
    s0: &Profiles,
    s1: &Profiles,
    r: &CmdOutcome,
) -> bool {
    if s0@.profiles.contains_key(name) {
        &&& store_unchanged(s0, s1)
        &&& r matches CmdOutcome::Done(resp) && fail_resp(resp, msg_profile_exists(name))
    } else {
        &&& s1@.profiles == s0@.profiles.insert(name, thresholds)
        &&& s1.player_entries() == s0.player_entries()
        &&& s1.current_profile@ == (if s0.current_profile@.len() == 0 {
            name
        } else {
            s0.current_profile@
        })
        &&& s1.default_profile@ == s0.default_profile@
        &&& s1.current_player@ == s0.current_player@
        &&& r matches CmdOutcome::NeedsSave(resp) && ok_resp(resp, msg_added(name), s1)
    }
}

pub fn add_profile(profiles: &mut Profiles, name: &String, thresholds: [i32; 4]) -> (r: CmdOutcome)
    requires
        old(profiles).wf(),
    ensures
        final(profiles).wf(),
        add_profile_spec(name@, thresholds@, old(profiles), final(profiles), &r),
{
    if profiles.has_profile(name) {
        return CmdOutcome::Done(
            command_response(false, build_msg_profile_exists(name), None),
        );
    }
    profiles.add_profile(name, thresholds);
    if profiles.current_profile.as_str().is_empty() {
        profiles.current_profile = name.clone();
    }
    let snapshot = profiles.clone();
    CmdOutcome::NeedsSave(command_response(true, build_msg_added(name), Some(snapshot)))
}

/// What `RemoveProfile` does: an unknown name fails; the currently
/// selected profile is refused and nothing changes; any other profile
/// leaves the table.
pub open spec fn remove_profile_spec(
    name: Seq<char>,
    s0: &Profiles,
    s1: &Profiles,
    r: &CmdOutcome,
) -> bool {
    if !s0@.profiles.contains_key(name) {
        &&& store_unchanged(s0, s1)
        &&& r matches CmdOutcome::Done(resp) && fail_resp(resp, msg_profile_not_found(name))
    } else if name == s0.current_profile@ {
        &&& store_unchanged(s0, s1)
        &&& r matches CmdOutcome::Done(resp) && fail_resp(resp, msg_cannot_remove_current())
    } else {
        &&& s1@.profiles == s0@.profiles.remove(name)
        &&& s1.player_entries() == s0.player_entries()
        &&& s1.current_profile@ == s0.current_profile@
        &&& s1.default_profile@ == s0.default_profile@
        &&& s1.current_player@ == s0.current_player@
        &&& r matches CmdOutcome::NeedsSave(resp) && ok_resp(resp, msg_removed(name), s1)
    }
}

pub fn remove_profile(profiles: &mut Profiles, name: &String) -> (r: CmdOutcome)
    requires
        old(profiles).wf(),
    ensures
        final(profiles).wf(),
        remove_profile_spec(name@, old(profiles), final(profiles), &r),
{
    if !profiles.has_profile(name) {
        return CmdOutcome::Done(
            command_response(false, build_msg_profile_not_found(name), None),
        );
    }
    if *name == profiles.current_profile {
        return CmdOutcome::Done(
            command_response(
                false,
                String::from_str("Cannot remove the currently selected profile"),
                None,
            ),
        );
    }
    profiles.remove_profile(name);
    let snapshot = profiles.clone();
    CmdOutcome::NeedsSave(command_response(true, build_msg_removed(name), Some(snapshot)))
}

/// What `ChangeProfile` does: all four thresholds of the named profile
/// go to the device first; on success the profile becomes current, the
/// current player (when one is set and known) is rebound to it, and a
/// save is owed.
pub open spec fn change_profile_spec<P: SensorPort>(
    name: Seq<char>,
    s0: &Profiles,
    s1: &Profiles,
    p0: &P,
    p1: &P,
    r: &CmdOutcome,
) -> bool {
    &&& flags_kept(p0, p1)
    &&& if !s0@.profiles.contains_key(name) {
        &&& store_unchanged(s0, s1)
        &&& echo_kept(p0, p1)
        &&& r matches CmdOutcome::Done(resp) && fail_resp(resp, msg_profile_not_found(name))
    } else {
        let thr = s0@.profiles[name];
        &&& match r {
            CmdOutcome::Done(resp) => store_unchanged(s0, s1) && !resp.success && resp.data
                is None && resp.sensor_values is None && cmd_resp_type(resp),
            CmdOutcome::NeedsSave(resp) => {
                &&& s1.profile_entries() == s0.profile_entries()
                &&& s1.current_profile@ == name
                &&& s1.default_profile@ == s0.default_profile@
                &&& s1.current_player@ == s0.current_player@
                &&& s1@.players == (if s0.current_player@.len() > 0 && s0@.players.contains_key(
                    s0.current_player@,
                ) {
                    s0@.players.insert(
                        s0.current_player@,
                        (s0@.players[s0.current_player@].0, name),
                    )
                } else {
                    s0@.players
                })
                &&& ok_resp(resp, msg_changed_profile(name, s0.current_player@), s1)
            },
        }
        &&& port_idle(p0) ==> r is NeedsSave && p1.echo() == echo_after_set_all(p0, thr)
        &&& p0.rejects_reads() ==> p1.echo() == p0.echo() && (r matches CmdOutcome::Done(resp)
            && fail_resp(resp, msg_set_all_failed(p0.reject_message())))
    }
}

pub fn change_profile<P: SensorPort>(
    profiles: &mut Profiles,
    port: &mut P,
    name: &String,
) -> (r: CmdOutcome)
    requires
        old(profiles).wf(),
    ensures
        final(profiles).wf(),
        change_profile_spec(name@, old(profiles), final(profiles), old(port), final(port), &r),
{
    let thr = match profiles.profile_thresholds(name) {
        Some(t) => t,
        None => {
            return CmdOutcome::Done(
                command_response(false, build_msg_profile_not_found(name), None),
            );
        },
    };
    match set_all_thresholds(port, thr) {
        Ok(()) => {
            profiles.current_profile = name.clone();
            if !profiles.current_player.as_str().is_empty() {
                let player_name = profiles.current_player.clone();
                if profiles.has_player(&player_name) {
                    profiles.set_player_profile(&player_name, name);
                }
            }
            let message = build_msg_changed_profile(name, &profiles.current_player);
            let snapshot = profiles.clone();
            CmdOutcome::NeedsSave(command_response(true, message, Some(snapshot)))
        },
        Err(e) => CmdOutcome::Done(
            command_response(false, build_msg_set_all_failed(e.text()), None),
        ),
    }
}

/// What `GetCurrentThresholds` does: with no usable current profile it
/// fails; otherwise the device is queried, a matching device is
/// reported synchronized with no write, and a drifted one is repaired
/// with exactly the four stored thresholds. The store never changes
/// and nothing is owed a save.
pub open spec fn get_current_thresholds_spec<P: SensorPort>(
    s0: &Profiles,
    s1: &Profiles,
    p0: &P,
    p1: &P,
    r: &CmdOutcome,
) -> bool {
    &&& flags_kept(p0, p1)
    &&& store_unchanged(s0, s1)
    &&& r is Done
    &&& if !s0@.profiles.contains_key(s0.current_profile@) {
        &&& echo_kept(p0, p1)
        &&& r matches CmdOutcome::Done(resp) && fail_resp(resp, msg_no_current_profile())
    } else {
        let thr = s0@.profiles[s0.current_profile@];
        &&& port_idle(p0) ==> (if p0.echo().thresholds == thr {
            &&& p1.echo() == p0.echo()
            &&& r matches CmdOutcome::Done(resp) && ok_resp(
                resp,
                msg_current_sync(s0.current_profile@, thr),
                s1,
            )
        } else {
            &&& p1.echo() == echo_after_set_all(p0, thr)
            &&& r matches CmdOutcome::Done(resp) && ok_resp(
                resp,
                msg_current_fixed(s0.current_profile@, thr),
                s1,
            )
        })
        &&& p0.rejects_reads() ==> p1.echo() == p0.echo() && (r matches CmdOutcome::Done(resp)
            && fail_resp(resp, msg_read_thresholds_failed(p0.reject_message())))
    }
}

pub fn get_current_thresholds<P: SensorPort>(profiles: &mut Profiles, port: &mut P) -> (r:
    CmdOutcome)
    requires
        old(profiles).wf(),
    ensures
        final(profiles).wf(),
        get_current_thresholds_spec(old(profiles), final(profiles), old(port), final(port), &r),
{
    let cp = profiles.current_profile.clone();
    let thr = match profiles.profile_thresholds(&cp) {
        Some(t) => t,
        None => {
            return CmdOutcome::Done(
                command_response(false, String::from_str("No current profile selected"), None),
            );
        },
    };
    match get_current_thresholds_from_device(port) {
        Ok(dev) => {
            if dev[0] == thr[0] && dev[1] == thr[1] && dev[2] == thr[2] && dev[3] == thr[3] {
                proof {
                    assert(dev@ =~= thr@);
                    if port_idle(old(port)) {
                        assert(old(port).echo().out =~= Seq::<u8>::empty());
                        assert(port.echo() =~~= old(port).echo());
                    }
                }
                let snapshot = profiles.clone();
                CmdOutcome::Done(
                    command_response(true, build_msg_current_sync(&cp, &thr), Some(snapshot)),
                )
            } else {
                match set_all_thresholds(port, thr) {
                    Ok(()) => {
                        let snapshot = profiles.clone();
                        CmdOutcome::Done(
                            command_response(
                                true,
                                build_msg_current_fixed(&cp, &thr),
                                Some(snapshot),
                            ),
                        )
                    },
                    Err(e) => CmdOutcome::Done(
                        command_response(
                            false,
                            build_msg_fix_failed(&dev, &thr, e.text()),
                            None,
                        ),
                    ),
                }
            }
        },
        Err(e) => CmdOutcome::Done(
            command_response(false, build_msg_read_thresholds_failed(e.text()), None),
        ),
    }
}

/// What `ChangePlayer` does. A known player: their profile's
/// thresholds go to the device, then player and profile become
/// current. An unknown player: a new one is created bound to the
/// default profile when that is set and valid, else to the current
/// profile, else the command fails with no mutation; no device
/// exchange takes place.
pub open spec fn change_player_spec<P: SensorPort>(
    name: Seq<char>,
    s0: &Profiles,
    s1: &Profiles,
    p0: &P,
    p1: &P,
    r: &CmdOutcome,
) -> bool {
    &&& flags_kept(p0, p1)
    &&& if s0@.players.contains_key(name) {
        let pprof = s0@.players[name].1;
        if !s0@.profiles.contains_key(pprof) {
            &&& store_unchanged(s0, s1)
            &&& echo_kept(p0, p1)
            &&& r matches CmdOutcome::Done(resp) && fail_resp(resp, msg_invalid_player_profile(
                name,
                pprof,
            ))
        } else {
            let thr = s0@.profiles[pprof];
            &&& match r {
                CmdOutcome::Done(resp) => store_unchanged(s0, s1) && !resp.success && resp.data
                    is None && resp.sensor_values is None && cmd_resp_type(resp),
                CmdOutcome::NeedsSave(resp) => {
                    &&& s1.profile_entries() == s0.profile_entries()
                    &&& s1.player_entries() == s0.player_entries()
                    &&& s1.current_player@ == name
                    &&& s1.current_profile@ == pprof
                    &&& s1.default_profile@ == s0.default_profile@
                    &&& ok_resp(resp, msg_switched_player(name, pprof), s1)
                },
            }
            &&& port_idle(p0) ==> r is NeedsSave && p1.echo() == echo_after_set_all(p0, thr)
            &&& p0.rejects_reads() ==> p1.echo() == p0.echo() && (r matches CmdOutcome::Done(
                resp,
            ) && fail_resp(resp, msg_set_all_failed(p0.reject_message())))
        }
    } else {
        let use_default = s0.default_profile@.len() > 0 && s0@.profiles.contains_key(
            s0.default_profile@,
        );
        let assigned = if use_default {
            s0.default_profile@
        } else {
            s0.current_profile@
        };
        &&& echo_kept(p0, p1)
        &&& if assigned.len() == 0 {
            &&& store_unchanged(s0, s1)
            &&& r matches CmdOutcome::Done(resp) && fail_resp(resp, msg_no_profile_for_player())
        } else {
            &&& s1.profile_entries() == s0.profile_entries()
            &&& s1@.players == s0@.players.insert(name, (name, assigned))
            &&& s1.current_player@ == name
            &&& s1.current_profile@ == assigned
            &&& s1.default_profile@ == s0.default_profile@
            &&& r matches CmdOutcome::NeedsSave(resp) && ok_resp(
                resp,
                msg_created_player(name, assigned),
                s1,
            )
        }
    }
}

pub fn change_player<P: SensorPort>(
    profiles: &mut Profiles,
    port: &mut P,
    name: &String,
) -> (r: CmdOutcome)
    requires
        old(profiles).wf(),
    ensures
        final(profiles).wf(),
        change_player_spec(name@, old(profiles), final(profiles), old(port), final(port), &r),
{
    match profiles.player_profile(name) {
        Some(pprof) => {
            let thr = match profiles.profile_thresholds(&pprof) {
                Some(t) => t,
                None => {
                    return CmdOutcome::Done(
                        command_response(
                            false,
                            build_msg_invalid_player_profile(name, &pprof),
                            None,
                        ),
                    );
                },
            };
            match set_all_thresholds(port, thr) {
                Ok(()) => {
                    profiles.current_player = name.clone();
                    profiles.current_profile = pprof.clone();
                    let snapshot = profiles.clone();
                    CmdOutcome::NeedsSave(
                        command_response(
                            true,
                            build_msg_switched_player(name, &pprof),
                            Some(snapshot),
                        ),
                    )
                },
                Err(e) => CmdOutcome::Done(
                    command_response(false, build_msg_set_all_failed(e.text()), None),
                ),
            }
        },
        None => {
            let mut assigned: String = String::new();
            if !profiles.default_profile.as_str().is_empty() {
                let d = profiles.default_profile.clone();
                if profiles.has_profile(&d) {
                    assigned = d;
                }
            }
            if assigned.as_str().is_empty() {
                assigned = profiles.current_profile.clone();
            }
            if assigned.as_str().is_empty() {
                return CmdOutcome::Done(
                    command_response(
                        false,
                        String::from_str(
                            "No default profile or current profile available to assign to new player",
                        ),
                        None,
                    ),
                );
            }
            profiles.add_player(name, &assigned);
            profiles.current_player = name.clone();
            profiles.current_profile = assigned.clone();
            let snapshot = profiles.clone();
            CmdOutcome::NeedsSave(
                command_response(true, build_msg_created_player(name, &assigned), Some(snapshot)),
            )
        },
    }
}

/// What `SetDefaultProfile` does: an existing name becomes the default
/// and a save is owed; an unknown one fails without mutation.
pub open spec fn set_default_profile_spec(
    name: Seq<char>,
    s0: &Profiles,
    s1: &Profiles,
    r: &CmdOutcome,
) -> bool {
    if !s0@.profiles.contains_key(name) {
        &&& store_unchanged(s0, s1)
        &&& r matches CmdOutcome::Done(resp) && fail_resp(resp, msg_profile_not_found(name))
    } else {
        &&& s1.profile_entries() == s0.profile_entries()
        &&& s1.player_entries() == s0.player_entries()
        &&& s1.current_profile@ == s0.current_profile@
        &&& s1.default_profile@ == name
        &&& s1.current_player@ == s0.current_player@
        &&& r matches CmdOutcome::NeedsSave(resp) && ok_resp(resp, msg_set_default(name), s1)
    }
}

pub fn set_default_profile(profiles: &mut Profiles, name: &String) -> (r: CmdOutcome)
    requires
        old(profiles).wf(),
    ensures
        final(profiles).wf(),
        set_default_profile_spec(name@, old(profiles), final(profiles), &r),
{
    if !profiles.has_profile(name) {
        return CmdOutcome::Done(
            command_response(false, build_msg_profile_not_found(name), None),
        );
    }
    profiles.default_profile = name.clone();
    let snapshot = profiles.clone();
    CmdOutcome::NeedsSave(command_response(true, build_msg_set_default(name), Some(snapshot)))
}

/// Builds the answer used when the owed persistence write failed.
pub fn save_failed_response(err: String) -> (r: Response)
    ensures
        fail_resp(&r, msg_save_failed(err@)),
{
    let mut s = String::from_str("Failed to save profiles: ");
    s.append(err.as_str());
    command_response(false, s, None)
}

/// Dispatches one command against the store, the device port and the
/// stream flag, and answers with exactly one outcome.
pub fn handle_command<P: SensorPort>(
    command: Command,
    profiles: &mut Profiles,
    serial_port: &mut P,
    stream_control: &mut bool,
) -> (r: CmdOutcome)
    requires
        old(profiles).wf(),
    ensures
        final(profiles).wf(),
        flags_kept(old(serial_port), final(serial_port)),
        match command {
            Command::UpdateThreshold { profile_name, threshold_index, value } => {
                &&& update_threshold_spec(
                    profile_name@,
                    threshold_index,
                    value,
                    old(profiles),
                    final(profiles),
                    old(serial_port),
                    final(serial_port),
                    &r,
                )
                &&& *final(stream_control) == *old(stream_control)
            },
            Command::AddProfile { name, thresholds } => {
                &&& add_profile_spec(name@, thresholds@, old(profiles), final(profiles), &r)
                &&& echo_kept(old(serial_port), final(serial_port))
                &&& *final(stream_control) == *old(stream_control)
            },
            Command::RemoveProfile { name } => {
                &&& remove_profile_spec(name@, old(profiles), final(profiles), &r)
                &&& echo_kept(old(serial_port), final(serial_port))
                &&& *final(stream_control) == *old(stream_control)
            },
            Command::ChangeProfile { name } => {
                &&& change_profile_spec(
                    name@,
                    old(profiles),
                    final(profiles),
                    old(serial_port),
                    final(serial_port),
                    &r,
                )
                &&& *final(stream_control) == *old(stream_control)
            },
            Command::ChangePlayer { name } => {
                &&& change_player_spec(
                    name@,
                    old(profiles),
                    final(profiles),
                    old(serial_port),
                    final(serial_port),
                    &r,
                )
                &&& *final(stream_control) == *old(stream_control)
            },
            Command::SetDefaultProfile { name } => {
                &&& set_default_profile_spec(name@, old(profiles), final(profiles), &r)
                &&& echo_kept(old(serial_port), final(serial_port))
                &&& *final(stream_control) == *old(stream_control)
            },
            Command::GetCurrentThresholds => {
                &&& get_current_thresholds_spec(
                    old(profiles),
                    final(profiles),
                    old(serial_port),
                    final(serial_port),
                    &r,
                )
                &&& *final(stream_control) == *old(stream_control)
            },
            Command::StartSensorStream => {
                &&& *final(stream_control)
                &&& store_unchanged(old(profiles), final(profiles))
                &&& echo_kept(old(serial_port), final(serial_port))
                &&& r matches CmdOutcome::Done(resp) && ok_resp(
                    &resp,
                    msg_stream_started(),
                    final(profiles),
                )
            },
            Command::StopSensorStream => {
                &&& !*final(stream_control)
                &&& store_unchanged(old(profiles), final(profiles))
                &&& echo_kept(old(serial_port), final(serial_port))
                &&& r matches CmdOutcome::Done(resp) && ok_resp(
                    &resp,
                    msg_stream_stopped(),
                    final(profiles),
                )
            },
            Command::GetSensorValues => {
                &&& store_unchanged(old(profiles), final(profiles))
                &&& echo_kept(old(serial_port), final(serial_port))
                &&& *final(stream_control) == *old(stream_control)
                &&& r matches CmdOutcome::Done(resp) && ok_resp(
                    &resp,
                    msg_use_stream(),
                    final(profiles),
                )
            },
            Command::Subscribe { .. } | Command::Unsubscribe { .. } => {
                &&& store_unchanged(old(profiles), final(profiles))
                &&& echo_kept(old(serial_port), final(serial_port))
                &&& *final(stream_control) == *old(stream_control)
                &&& r matches CmdOutcome::Done(resp) && fail_resp(&resp, msg_not_supported())
            },
        },
{
    match command {
        Command::UpdateThreshold { profile_name, threshold_index, value } => update_threshold(
            profiles,
            serial_port,
            &profile_name,
            threshold_index,
            value,
        ),
        Command::AddProfile { name, thresholds } => add_profile(profiles, &name, thresholds),
        Command::RemoveProfile { name } => remove_profile(profiles, &name),
        Command::ChangeProfile { name } => change_profile(profiles, serial_port, &name),
        Command::ChangePlayer { name } => change_player(profiles, serial_port, &name),
        Command::SetDefaultProfile { name } => set_default_profile(profiles, &name),
        Command::GetCurrentThresholds => get_current_thresholds(profiles, serial_port),
        Command::StartSensorStream => {
            *stream_control = true;
            let snapshot = profiles.clone();
            CmdOutcome::Done(
                command_response(true, String::from_str("Sensor stream started"), Some(snapshot)),
            )
        },
        Command::StopSensorStream => {
            *stream_control = false;
            let snapshot = profiles.clone();
            CmdOutcome::Done(
                command_response(true, String::from_str("Sensor stream stopped"), Some(snapshot)),
            )
        },
        Command::GetSensorValues => {
            let snapshot = profiles.clone();
            CmdOutcome::Done(
                command_response(
                    true,
                    String::from_str("Use sensor stream for real-time data"),
                    Some(snapshot),
                ),
            )
        },
        Command::Subscribe { .. } => CmdOutcome::Done(
            command_response(false, String::from_str("Command not supported"), None),
        ),
        Command::Unsubscribe { .. } => CmdOutcome::Done(
            command_response(false, String::from_str("Command not supported"), None),
        ),
    }
}

/// One telemetry cycle: nothing while the stream is disabled;
/// otherwise one device poll, published on success and dropped on
/// failure so the loop outlives a transiently absent device.
pub fn telemetry_tick<P: SensorPort>(port: &mut P, enabled: bool) -> (r: Option<Response>)
    ensures
        flags_kept(old(port), final(port)),
        !enabled ==> r is None && echo_kept(old(port), final(port)),
        enabled && port_idle(old(port)) ==> {
            &&& r matches Some(resp) && resp.success && resp.message@ == "Sensor stream data"@
                && resp.data is None && (resp.sensor_values matches Some(v) && v@ == sim_values(
                adv_phases(old(port).echo().phases),
            )) && (resp.response_type matches Some(t) && t@ == "sensor_stream"@)
            &&& final(port).echo() == (EchoModel {
                thresholds: old(port).echo().thresholds,
                phases: adv_phases(old(port).echo().phases),
                out: Seq::empty(),
                writes: old(port).echo().writes,
            })
        },
        enabled && old(port).rejects_reads() ==> r is None && final(port).echo() == old(port).echo(),
{
    if !enabled {
        return None;
    }
    match read_sensor_values(port) {
        Ok(vals) => Some(
            Response {
                success: true,
                message: String::from_str("Sensor stream data"),
                data: None,
                sensor_values: Some(vals),
                response_type: Some(String::from_str("sensor_stream")),
            },
        ),
        Err(_) => None,
    }
}

/// The periodic presence emission: the full store snapshot, keyed by
/// the current player, sent whether or not anything changed.
pub fn presence_response(profiles: &Profiles) -> (r: Response)
    ensures
        r.success,
        r.message@ == "Active player: "@ + profiles.current_player@,
        snapshot_of(r.data, profiles),
        r.sensor_values is None,
        r.response_type matches Some(t) && t@ == "active_player_broadcast"@,
{
    let mut m = String::from_str("Active player: ");
    m.append(profiles.current_player.as_str());
    Response {
        success: true,
        message: m,
        data: Some(profiles.clone()),
        sensor_values: None,
        response_type: Some(String::from_str("active_player_broadcast")),
    }
}

/// The greeting a fresh connection receives: the current store.
pub fn connection_response(profiles: &Profiles) -> (r: Response)
    ensures
        ok_resp(&r, "Connected to profile manager"@, profiles),
{
    let snapshot = profiles.clone();
    command_response(true, String::from_str("Connected to profile manager"), Some(snapshot))
}

/// Seeds a brand-new store with one profile and selects it, as a
/// process with no persisted configuration starts.
pub fn ensure_default_profile(profiles: &mut Profiles) -> (changed: bool)
    requires
        old(profiles).wf(),
    ensures
        final(profiles).wf(),
        old(profiles).profile_entries().len() == 0 ==> changed && final(profiles)@.profiles
            == old(profiles)@.profiles.insert(
            "DEFAULT"@,
            seq![100i32, 200i32, 300i32, 400i32],
        ) && final(profiles).current_profile@ == "DEFAULT"@ && final(profiles).player_entries()
            == old(profiles).player_entries() && final(profiles).default_profile@ == old(
            profiles,
        ).default_profile@ && final(profiles).current_player@ == old(profiles).current_player@,
        old(profiles).profile_entries().len() != 0 ==> !changed && store_unchanged(
            old(profiles),
            final(profiles),
        ),
{
    if profiles.profiles.len() == 0 {
        proof {
            crate::amap::lemma_amap_contains(profiles.profile_entries(), "DEFAULT"@);
        }
        let name = String::from_str("DEFAULT");
        let thresholds: [i32; 4] = [100, 200, 300, 400];
        proof {
            assert(thresholds@ =~= seq![100i32, 200i32, 300i32, 400i32]);
        }
        profiles.add_profile(&name, thresholds);
        profiles.current_profile = name;
        true
    } else {
        false
    }
}

} // verus!
