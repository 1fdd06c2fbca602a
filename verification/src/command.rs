//! Client-facing commands, the outcome envelope every command answers
//! with, and the exact texts those answers carry.

use vstd::prelude::*;
use vstd::string::StringExecFns;

use crate::store::Profiles;
use crate::text::{push_int_chars, push_dec_chars, dec_chars, render_chars};

verus! {

/// One client command, as it arrives on the wire.
#[derive(Debug, Clone, PartialEq)]
pub enum Command {
    UpdateThreshold { profile_name: String, threshold_index: usize, value: i32 },
    AddProfile { name: String, thresholds: [i32; 4] },
    RemoveProfile { name: String },
    ChangeProfile { name: String },
    ChangePlayer { name: String },
    SetDefaultProfile { name: String },
    GetCurrentThresholds,
    GetSensorValues,
    StartSensorStream,
    StopSensorStream,
    Subscribe { event_types: Vec<String> },
    Unsubscribe { event_types: Vec<String> },
}

/// The outcome envelope: success flag, text, an optional store
/// snapshot, an optional telemetry sample, and the kind of emission.
#[derive(Debug)]
pub struct Response {
    pub success: bool,
    pub message: String,
    pub data: Option<Profiles>,
    pub sensor_values: Option<[i32; 4]>,
    pub response_type: Option<String>,
}

impl Clone for Response {
    fn clone(&self) -> (r: Self)
        ensures
            r.success == self.success,
            r.message@ == self.message@,
            match (r.data, self.data) {
                (Some(a), Some(b)) => a.profile_entries() == b.profile_entries()
                    && a.player_entries() == b.player_entries() && a.current_profile@
                    == b.current_profile@ && a.default_profile@ == b.default_profile@
                    && a.current_player@ == b.current_player@,
                (None, None) => true,
                _ => false,
            },
            r.sensor_values == self.sensor_values,
            match (r.response_type, self.response_type) {
                (Some(a), Some(b)) => a@ == b@,
                (None, None) => true,
                _ => false,
            },
    {
        let data = match &self.data {
            Some(p) => Some(p.clone()),
            None => None,
        };
        let response_type = match &self.response_type {
            Some(t) => Some(t.clone()),
            None => None,
        };
        Response {
            success: self.success,
            message: self.message.clone(),
            data,
            sensor_values: self.sensor_values,
            response_type,
        }
    }
}

/// The reply kind every direct command answer carries.
pub open spec fn cmd_resp_type(r: &Response) -> bool {
    r.response_type matches Some(t) && t@ == "command_response"@
}

/// `d` holds a faithful snapshot of the store `s`.
pub open spec fn snapshot_of(d: Option<Profiles>, s: &Profiles) -> bool {
    d matches Some(p) && p.profile_entries() == s.profile_entries() && p.player_entries()
        == s.player_entries() && p.current_profile@ == s.current_profile@ && p.default_profile@
        == s.default_profile@ && p.current_player@ == s.current_player@
}

/// A successful command answer carrying a snapshot of `s`.
pub open spec fn ok_resp(r: &Response, msg: Seq<char>, s: &Profiles) -> bool {
    r.success && r.message@ == msg && snapshot_of(r.data, s) && r.sensor_values is None
        && cmd_resp_type(r)
}

/// A failed command answer, with no data attached.
pub open spec fn fail_resp(r: &Response, msg: Seq<char>) -> bool {
    !r.success && r.message@ == msg && r.data is None && r.sensor_values is None && cmd_resp_type(
        r,
    )
}

/// Builds a command answer, stamping the reply kind.
pub fn command_response(success: bool, message: String, data: Option<Profiles>) -> (r: Response)
    ensures
        r.success == success,
        r.message == message,
        r.data == data,
        r.sensor_values is None,
        cmd_resp_type(&r),
{
    Response {
        success,
        message,
        data,
        sensor_values: None,
        response_type: Some(String::from_str("command_response")),
    }
}

/// A threshold list the way the answers print it.
pub open spec fn arr_chars(vals: Seq<i32>) -> Seq<char> {
    "["@ + render_chars(vals[0] as int) + ", "@ + render_chars(vals[1] as int) + ", "@
        + render_chars(vals[2] as int) + ", "@ + render_chars(vals[3] as int) + "]"@
}

fn push_arr_chars(s: &mut String, vals: &[i32; 4])
    ensures
        final(s)@ == old(s)@ + arr_chars(vals@),
{
    s.append("[");
    push_int_chars(s, vals[0]);
    s.append(", ");
    push_int_chars(s, vals[1]);
    s.append(", ");
    push_int_chars(s, vals[2]);
    s.append(", ");
    push_int_chars(s, vals[3]);
    s.append("]");
    proof {
        assert(s@ =~= old(s)@ + arr_chars(vals@));
    }
}

pub open spec fn msg_updated(idx: usize, value: i32, profile: Seq<char>) -> Seq<char> {
    "Updated threshold "@ + dec_chars(idx as nat) + " to "@ + render_chars(value as int)
        + " for profile "@ + profile + " and serial device"@
}

pub fn build_msg_updated(idx: usize, value: i32, profile: &String) -> (r: String)
    ensures
        r@ == msg_updated(idx, value, profile@),
{
    let mut s = String::from_str("Updated threshold ");
    push_dec_chars(&mut s, idx as u64);
    s.append(" to ");
    push_int_chars(&mut s, value);
    s.append(" for profile ");
    s.append(profile.as_str());
    s.append(" and serial device");
    s
}

pub open spec fn msg_set_threshold_failed(err: Seq<char>) -> Seq<char> {
    "Failed to set threshold on serial device: "@ + err
}

pub fn build_msg_set_threshold_failed(err: String) -> (r: String)
    ensures
        r@ == msg_set_threshold_failed(err@),
{
    let mut s = String::from_str("Failed to set threshold on serial device: ");
    s.append(err.as_str());
    s
}

pub open spec fn msg_index_range() -> Seq<char> {
    "Threshold index must be 0-3"@
}

pub open spec fn msg_profile_not_found(name: Seq<char>) -> Seq<char> {
    "Profile '"@ + name + "' not found"@
}

pub fn build_msg_profile_not_found(name: &String) -> (r: String)
    ensures
        r@ == msg_profile_not_found(name@),
{
    let mut s = String::from_str("Profile '");
    s.append(name.as_str());
    s.append("' not found");
    s
}

pub open spec fn msg_save_failed(err: Seq<char>) -> Seq<char> {
    "Failed to save profiles: "@ + err
}

pub open spec fn msg_profile_exists(name: Seq<char>) -> Seq<char> {
    "Profile '"@ + name + "' already exists"@
}

pub fn build_msg_profile_exists(name: &String) -> (r: String)
    ensures
        r@ == msg_profile_exists(name@),
{
    let mut s = String::from_str("Profile '");
    s.append(name.as_str());
    s.append("' already exists");
    s
}

pub open spec fn msg_added(name: Seq<char>) -> Seq<char> {
    "Added profile '"@ + name + "'"@
}

pub fn build_msg_added(name: &String) -> (r: String)
    ensures
        r@ == msg_added(name@),
{
    let mut s = String::from_str("Added profile '");
    s.append(name.as_str());
    s.append("'");
    s
}

pub open spec fn msg_cannot_remove_current() -> Seq<char> {
    "Cannot remove the currently selected profile"@
}

pub open spec fn msg_removed(name: Seq<char>) -> Seq<char> {
    "Removed profile '"@ + name + "'"@
}

pub fn build_msg_removed(name: &String) -> (r: String)
    ensures
        r@ == msg_removed(name@),
{
    let mut s = String::from_str("Removed profile '");
    s.append(name.as_str());
    s.append("'");
    s
}

pub open spec fn msg_set_all_failed(err: Seq<char>) -> Seq<char> {
    "Failed to set thresholds on serial device: "@ + err
}

pub fn build_msg_set_all_failed(err: String) -> (r: String)
    ensures
        r@ == msg_set_all_failed(err@),
{
    let mut s = String::from_str("Failed to set thresholds on serial device: ");
    s.append(err.as_str());
    s
}

pub open spec fn msg_changed_profile(name: Seq<char>, current_player: Seq<char>) -> Seq<char> {
    "Changed to profile '"@ + name + "' and set all thresholds on serial device"@ + (
    if current_player.len() > 0 {
        " (updated current player '"@ + current_player + "' profile)"@
    } else {
        Seq::<char>::empty()
    })
}

pub fn build_msg_changed_profile(name: &String, current_player: &String) -> (r: String)
    ensures
        r@ == msg_changed_profile(name@, current_player@),
{
    let mut s = String::from_str("Changed to profile '");
    s.append(name.as_str());
    s.append("' and set all thresholds on serial device");
    if current_player.as_str().unicode_len() > 0 {
        s.append(" (updated current player '");
        s.append(current_player.as_str());
        s.append("' profile)");
        proof {
            assert(s@ =~= msg_changed_profile(name@, current_player@));
        }
    } else {
        proof {
            assert(s@ =~= msg_changed_profile(name@, current_player@));
        }
    }
    s
}

pub open spec fn msg_current_sync(profile: Seq<char>, thr: Seq<i32>) -> Seq<char> {
    "Current thresholds for profile '"@ + profile + "': "@ + arr_chars(thr)
        + " (device synchronized)"@
}

pub fn build_msg_current_sync(profile: &String, thr: &[i32; 4]) -> (r: String)
    ensures
        r@ == msg_current_sync(profile@, thr@),
{
    let mut s = String::from_str("Current thresholds for profile '");
    s.append(profile.as_str());
    s.append("': ");
    push_arr_chars(&mut s, thr);
    s.append(" (device synchronized)");
    s
}

pub open spec fn msg_current_fixed(profile: Seq<char>, thr: Seq<i32>) -> Seq<char> {
    "Current thresholds for profile '"@ + profile + "': "@ + arr_chars(thr)
        + " (device was out of sync, now fixed)"@
}

pub fn build_msg_current_fixed(profile: &String, thr: &[i32; 4]) -> (r: String)
    ensures
        r@ == msg_current_fixed(profile@, thr@),
{
    let mut s = String::from_str("Current thresholds for profile '");
    s.append(profile.as_str());
    s.append("': ");
    push_arr_chars(&mut s, thr);
    s.append(" (device was out of sync, now fixed)");
    s
}

pub open spec fn msg_fix_failed(dev: Seq<i32>, thr: Seq<i32>, err: Seq<char>) -> Seq<char> {
    "Device thresholds ("@ + arr_chars(dev) + ") don't match profile ("@ + arr_chars(thr)
        + ") and failed to fix: "@ + err
}

pub fn build_msg_fix_failed(dev: &[i32; 4], thr: &[i32; 4], err: String) -> (r: String)
    ensures
        r@ == msg_fix_failed(dev@, thr@, err@),
{
    let mut s = String::from_str("Device thresholds (");
    push_arr_chars(&mut s, dev);
    s.append(") don't match profile (");
    push_arr_chars(&mut s, thr);
    s.append(") and failed to fix: ");
    s.append(err.as_str());
    s
}

pub open spec fn msg_read_thresholds_failed(err: Seq<char>) -> Seq<char> {
    "Failed to read thresholds from device: "@ + err
}

pub fn build_msg_read_thresholds_failed(err: String) -> (r: String)
    ensures
        r@ == msg_read_thresholds_failed(err@),
{
    let mut s = String::from_str("Failed to read thresholds from device: ");
    s.append(err.as_str());
    s
}

pub open spec fn msg_no_current_profile() -> Seq<char> {
    "No current profile selected"@
}

pub open spec fn msg_stream_started() -> Seq<char> {
    "Sensor stream started"@
}

pub open spec fn msg_stream_stopped() -> Seq<char> {
    "Sensor stream stopped"@
}

pub open spec fn msg_switched_player(name: Seq<char>, profile: Seq<char>) -> Seq<char> {
    "Switched to player '"@ + name + "' with profile '"@ + profile
        + "' and set thresholds on serial device"@
}

pub fn build_msg_switched_player(name: &String, profile: &String) -> (r: String)
    ensures
        r@ == msg_switched_player(name@, profile@),
{
    let mut s = String::from_str("Switched to player '");
    s.append(name.as_str());
    s.append("' with profile '");
    s.append(profile.as_str());
    s.append("' and set thresholds on serial device");
    s
}

pub open spec fn msg_invalid_player_profile(name: Seq<char>, profile: Seq<char>) -> Seq<char> {
    "Player '"@ + name + "' has invalid profile '"@ + profile + "'"@
}

pub fn build_msg_invalid_player_profile(name: &String, profile: &String) -> (r: String)
    ensures
        r@ == msg_invalid_player_profile(name@, profile@),
{
    let mut s = String::from_str("Player '");
    s.append(name.as_str());
    s.append("' has invalid profile '");
    s.append(profile.as_str());
    s.append("'");
    s
}

pub open spec fn msg_no_profile_for_player() -> Seq<char> {
    "No default profile or current profile available to assign to new player"@
}

pub open spec fn msg_created_player(name: Seq<char>, profile: Seq<char>) -> Seq<char> {
    "Created new player '"@ + name + "' with profile '"@ + profile + "'"@
}

pub fn build_msg_created_player(name: &String, profile: &String) -> (r: String)
    ensures
        r@ == msg_created_player(name@, profile@),
{
    let mut s = String::from_str("Created new player '");
    s.append(name.as_str());
    s.append("' with profile '");
    s.append(profile.as_str());
    s.append("'");
    s
}

pub open spec fn msg_set_default(name: Seq<char>) -> Seq<char> {
    "Set '"@ + name + "' as default profile"@
}

pub fn build_msg_set_default(name: &String) -> (r: String)
    ensures
        r@ == msg_set_default(name@),
{
    let mut s = String::from_str("Set '");
    s.append(name.as_str());
    s.append("' as default profile");
    s
}

pub open spec fn msg_use_stream() -> Seq<char> {
    "Use sensor stream for real-time data"@
}

pub open spec fn msg_not_supported() -> Seq<char> {
    "Command not supported"@
}

} // verus!
