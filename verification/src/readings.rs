//! What the daemon reads from the desktop's tools: the volume, brightness,
//! workspaces, battery, network and bluetooth state, put together into a
//! `SystemState`.

use vstd::prelude::*;
use vstd::utf8::{decode_utf8, valid_utf8};

use crate::models::{Notification, SystemState};
use crate::numbers::parse_unsigned;
use crate::numbers::parse_unsigned_chars;
use crate::text::{
    chars_of, contains, lossy_decoding, owned, replace_text, replaced, split, split_pieces,
    string_of, text_contains, trim, trim_chars, trimmed, utf8_decode, utf8_decode_lossy,
};

verus! {

broadcast use vstd::seq_lib::group_to_multiset_ensures;

/// Why the system state could not be read.
#[derive(Clone, Copy, Debug, PartialEq, Eq)]
pub enum ReadError {
    /// A tool printed something that is not UTF-8.
    NotUtf8,
    /// The compositor printed something that is not JSON.
    NotJson,
}

/// The text a tool printed, where it is UTF-8.
pub fn decode_command_output(bytes: Vec<u8>) -> (r: Result<String, ReadError>)
    ensures
        r is Ok <==> valid_utf8(bytes@),
        r matches Ok(t) ==> t@ == decode_utf8(bytes@),
        r is Err ==> r == Err::<String, ReadError>(ReadError::NotUtf8),
{
    match utf8_decode(bytes) {
        Some(t) => Ok(t),
        None => Err(ReadError::NotUtf8),
    }
}

/// The audio state that `wpctl get-volume` printed: whether the sink is
/// muted, and the volume as the decimal fraction it printed.
#[derive(Clone, Debug, PartialEq, Eq)]
pub struct AudioReading {
    pub is_muted: bool,
    pub level_text: String,
}

/// The volume text of `wpctl get-volume` output: without `Volume: ` and
/// `[MUTED]`, trimmed.
pub open spec fn volume_text(out: Seq<char>) -> Seq<char> {
    trim(replaced(replaced(out, "Volume: "@, ""@), "[MUTED]"@, ""@))
}

/// Reads `wpctl get-volume` output.
pub fn parse_audio_output(text: &str) -> (r: AudioReading)
    ensures
        r.is_muted == contains(text@, "[MUTED]"@),
        r.level_text@ == volume_text(text@),
{
    proof {
        reveal_strlit("Volume: ");
        reveal_strlit("[MUTED]");
    }
    let is_muted = text_contains(text, "[MUTED]");
    let a = replace_text(text, "Volume: ", "");
    let b = replace_text(a.as_str(), "[MUTED]", "");
    AudioReading { is_muted, level_text: trimmed(b.as_str()) }
}

/// The brightness percentage in `brightnessctl -m` output: its fourth
/// comma-separated field without `%` signs, trimmed and read as a number;
/// `0%` stands in for a missing field and 0 for one that is not a number.
pub open spec fn brightness_value(out: Seq<char>) -> nat {
    let p = split(out, ","@);
    let field = if p.len() > 3 {
        p[3]
    } else {
        "0%"@
    };
    match parse_unsigned(trim(replaced(field, "%"@, ""@)), u32::MAX as nat) {
        Some(v) => v,
        None => 0,
    }
}

/// Reads `brightnessctl -m` output.
pub fn parse_brightness_output(text: &str) -> (r: u32)
    ensures
        r == brightness_value(text@),
{
    proof {
        reveal_strlit(",");
        reveal_strlit("%");
    }
    let cs = chars_of(text);
    let comma: Vec<char> = vec![','];
    assert(comma@ =~= ","@);
    let pieces = split_pieces(cs.as_slice(), comma.as_slice());
    let field: Vec<char> = if pieces.len() > 3 {
        let mut f: Vec<char> = Vec::new();
        let mut i: usize = 0;
        while i < pieces[3].len()
            invariant
                pieces@.len() > 3,
                i <= pieces@[3]@.len(),
                f@ =~= pieces@[3]@.take(i as int),
            decreases pieces@[3]@.len() - i,
        {
            f.push(pieces[3][i]);
            i = i + 1;
        }
        assert(f@ =~= pieces@[3]@);
        f
    } else {
        chars_of("0%")
    };
    let fs = string_of(field.as_slice());
    let no_pct = replace_text(fs.as_str(), "%", "");
    let ds = chars_of(no_pct.as_str());
    let t = trim_chars(ds.as_slice());
    match parse_unsigned_chars(t.as_slice(), u32::MAX) {
        Some(v) => v,
        None => 0,
    }
}

/// What `serde_json` makes of the compositor's workspace list `text`:
/// nothing where `text` is not JSON; otherwise, where the value is an
/// array, the `id` field of each element as an `i64` (`Value::get`,
/// `Value::as_i64`), and nothing more where it is not an array. A function
/// of `text` alone.
pub uninterp spec fn json_array_ids(text: Seq<char>) -> Option<Option<Seq<Option<i64>>>>;

/// What `serde_json` makes of the compositor's active workspace `text`:
/// nothing where it is not JSON; otherwise the value's `id` field as an
/// `i64`, where there is one. A function of `text` alone.
pub uninterp spec fn json_object_id(text: Seq<char>) -> Option<Option<i64>>;

#[verifier::external_type_specification]
#[verifier::external_body]
pub struct ExJsonError(serde_json::Error);

/// `serde_json::from_str` into a `Value`, then `Value::as_array` and, for
/// each element, `Value::get("id")` and `Value::as_i64`. The contract says
/// that the result is `json_array_ids` of the text; JSON itself is not
/// stated.
#[verifier::external_body]
fn read_array_ids(text: &str) -> (r: Result<Option<Vec<Option<i64>>>, serde_json::Error>)
    ensures
        match r {
            Ok(Some(v)) => json_array_ids(text@) == Some(Some(v@)),
            Ok(None) => json_array_ids(text@) == Some(None::<Seq<Option<i64>>>),
            Err(_) => json_array_ids(text@) is None,
        },
{
    serde_json::from_str::<serde_json::Value>(text).map(
        |v| v.as_array().map(|a| a.iter().map(|w| w.get("id").and_then(|i| i.as_i64())).collect()),
    )
}

/// `serde_json::from_str` into a `Value`, then `Value::get("id")` and
/// `Value::as_i64`. The contract says that the result is `json_object_id`
/// of the text; JSON itself is not stated.
#[verifier::external_body]
fn read_object_id(text: &str) -> (r: Result<Option<i64>, serde_json::Error>)
    ensures
        match r {
            Ok(v) => json_object_id(text@) == Some(v),
            Err(_) => json_object_id(text@) is None,
        },
{
    serde_json::from_str::<serde_json::Value>(text).map(|v| v.get("id").and_then(|i| i.as_i64()))
}

/// The workspace ids present in `ids`, each cut to 32 bits as `as i32`
/// does, in their order.
pub open spec fn present_ids(ids: Seq<Option<i64>>) -> Seq<i32>
    decreases ids.len(),
{
    if ids.len() == 0 {
        Seq::empty()
    } else {
        let rest = present_ids(ids.drop_last());
        match ids.last() {
            Some(v) => rest.push(v as i32),
            None => rest,
        }
    }
}

/// Whether `s` is in ascending order.
pub open spec fn ascending(s: Seq<i32>) -> bool {
    forall|i: int, j: int| 0 <= i <= j < s.len() ==> s[i] <= s[j]
}

/// Whether `r` is the workspace list for the compositor's answer `ids`:
/// the ids present, cut to 32 bits, in ascending order; empty where the
/// answer is not a list.
pub open spec fn is_workspace_list(r: Seq<i32>, ids: Option<Seq<Option<i64>>>) -> bool {
    let present = match ids {
        Some(s) => present_ids(s),
        None => Seq::empty(),
    };
    ascending(r) && r.to_multiset() == present.to_multiset()
}

/// Sorts workspace ids into ascending order.
pub fn sort_ids(v: Vec<i32>) -> (r: Vec<i32>)
    ensures
        ascending(r@),
        r@.to_multiset() == v@.to_multiset(),
{
    let mut out: Vec<i32> = Vec::new();
    let mut i: usize = 0;
    while i < v.len()
        invariant
            i <= v@.len(),
            ascending(out@),
            out@.to_multiset() == v@.take(i as int).to_multiset(),
        decreases v.len() - i,
    {
        let x = v[i];
        let mut p: usize = 0;
        while p < out.len() && out[p] <= x
            invariant
                p <= out@.len(),
                forall|k: int| 0 <= k < p ==> out@[k] <= x,
            decreases out.len() - p,
        {
            p = p + 1;
        }
        let ghost before = out@;
        out.insert(p, x);
        proof {
            assert(out@ == before.insert(p as int, x));
            assert(v@.take(i + 1) =~= v@.take(i as int).push(x));
            assert forall|a: int, b: int| 0 <= a <= b < out@.len() implies out@[a] <= out@[b] by {
                if a < p && b > p {
                    assert(out@[b] == before[b - 1]);
                }
                if a == p && b > p {
                    assert(out@[b] == before[b - 1]);
                    assert(p < before.len());
                    assert(before[p as int] > x);
                }
                if a > p {
                    assert(out@[a] == before[a - 1]);
                    assert(out@[b] == before[b - 1]);
                }
            }
        }
        i = i + 1;
    }
    assert(v@.take(v@.len() as int) =~= v@);
    out
}

/// The ids present in `ids`, each cut to 32 bits.
fn collect_present(ids: &Vec<Option<i64>>) -> (r: Vec<i32>)
    ensures
        r@ == present_ids(ids@),
{
    let mut out: Vec<i32> = Vec::new();
    let mut i: usize = 0;
    while i < ids.len()
        invariant
            i <= ids@.len(),
            out@ == present_ids(ids@.take(i as int)),
        decreases ids.len() - i,
    {
        assert(ids@.take(i + 1).drop_last() =~= ids@.take(i as int));
        match ids[i] {
            Some(v) => {
                out.push(v as i32);
            },
            None => {},
        }
        i = i + 1;
    }
    assert(ids@.take(ids@.len() as int) =~= ids@);
    out
}

/// The sorted workspace list for the compositor's answer, given as the id
/// of each listed workspace (none where the answer is not a list).
pub fn workspace_list(ids: Option<Vec<Option<i64>>>) -> (r: Vec<i32>)
    ensures
        is_workspace_list(
            r@,
            match ids {
                Some(v) => Some(v@),
                None => None,
            },
        ),
{
    match ids {
        Some(v) => sort_ids(collect_present(&v)),
        None => {
            let r: Vec<i32> = Vec::new();
            assert(r@ =~= Seq::<i32>::empty());
            r
        },
    }
}

/// The active workspace: its id cut to 32 bits, or 1 where the compositor
/// gave none.
pub open spec fn active_id(id: Option<i64>) -> i32 {
    match id {
        Some(v) => v as i32,
        None => 1,
    }
}

/// The active workspace for the compositor's answer.
pub fn active_workspace(id: Option<i64>) -> (r: i32)
    ensures
        r == active_id(id),
{
    match id {
        Some(v) => v as i32,
        None => 1,
    }
}

/// Reads the compositor's workspace list.
pub fn parse_workspaces(json_text: &str) -> (r: Result<Vec<i32>, ReadError>)
    ensures
        r is Ok <==> json_array_ids(json_text@) is Some,
        r is Err ==> r == Err::<Vec<i32>, ReadError>(ReadError::NotJson),
        r matches Ok(w) ==> is_workspace_list(w@, json_array_ids(json_text@)->0),
{
    match read_array_ids(json_text) {
        Ok(ids) => Ok(workspace_list(ids)),
        Err(_) => Err(ReadError::NotJson),
    }
}

/// Reads the compositor's active workspace.
pub fn parse_active_workspace(json_text: &str) -> (r: Result<i32, ReadError>)
    ensures
        r is Ok <==> json_object_id(json_text@) is Some,
        r is Err ==> r == Err::<i32, ReadError>(ReadError::NotJson),
        r matches Ok(w) ==> w == active_id(json_object_id(json_text@)->0),
{
    match read_object_id(json_text) {
        Ok(id) => Ok(active_workspace(id)),
        Err(_) => Err(ReadError::NotJson),
    }
}

/// The battery charge: the first capacity file that could be read (`100`
/// where neither could), trimmed and read as a number up to 255, or 100
/// where it is not one.
pub open spec fn battery_value(bat0: Option<Seq<char>>, bat1: Option<Seq<char>>) -> nat {
    let text = match bat0 {
        Some(t) => t,
        None => match bat1 {
            Some(t) => t,
            None => "100"@,
        },
    };
    match parse_unsigned(trim(text), 255) {
        Some(v) => v,
        None => 100,
    }
}

/// The battery charge from the contents of the first and second battery's
/// capacity files, where they could be read.
pub fn battery_level(bat0: Option<String>, bat1: Option<String>) -> (r: u8)
    ensures
        r == battery_value(
            match bat0 {
                Some(t) => Some(t@),
                None => None,
            },
            match bat1 {
                Some(t) => Some(t@),
                None => None,
            },
        ),
{
    let text = match bat0 {
        Some(t) => t,
        None => match bat1 {
            Some(t) => t,
            None => owned("100"),
        },
    };
    let cs = chars_of(text.as_str());
    let t = trim_chars(cs.as_slice());
    match parse_unsigned_chars(t.as_slice(), 255) {
        Some(v) => v as u8,
        None => 100,
    }
}

/// The trimmed text a tool printed, or `empty` where it printed nothing
/// but white space, or `failed` where it could not be run.
pub open spec fn printed_or(output: Option<Seq<u8>>, empty: Seq<char>, failed: Seq<char>) -> Seq<
    char,
> {
    match output {
        Some(o) => {
            let t = trim(lossy_decoding(o));
            if t.len() == 0 {
                empty
            } else {
                t
            }
        },
        None => failed,
    }
}

fn printed_text(output: Option<Vec<u8>>, empty: &str, failed: &str) -> (r: String)
    ensures
        r@ == printed_or(
            match output {
                Some(o) => Some(o@),
                None => None,
            },
            empty@,
            failed@,
        ),
{
    match output {
        Some(o) => {
            let text = utf8_decode_lossy(o.as_slice());
            let t = trimmed(text.as_str());
            if t.as_str().is_empty() {
                owned(empty)
            } else {
                t
            }
        },
        None => owned(failed),
    }
}

/// The name of the connected wireless network from what `nmcli` printed:
/// `Disconnected` where it printed nothing, `Unknown` where it could not
/// be run.
pub fn wifi_name(output: Option<Vec<u8>>) -> (r: String)
    ensures
        r@ == printed_or(
            match output {
                Some(o) => Some(o@),
                None => None,
            },
            "Disconnected"@,
            "Unknown"@,
        ),
{
    printed_text(output, "Disconnected", "Unknown")
}

/// Whether bluetooth is on, from what `bluetoothctl show` printed: it says
/// `Powered: yes` somewhere; off where it could not be run.
pub fn bluetooth_powered(output: Option<Vec<u8>>) -> (r: bool)
    ensures
        r == (match output {
            Some(o) => contains(lossy_decoding(o@), "Powered: yes"@),
            None => false,
        }),
{
    match output {
        Some(o) => {
            let text = utf8_decode_lossy(o.as_slice());
            text_contains(text.as_str(), "Powered: yes")
        },
        None => false,
    }
}

/// The connected bluetooth device from what `bluetoothctl devices
/// Connected` printed: `None` where it printed nothing or could not be
/// run.
pub fn connected_device(output: Option<Vec<u8>>) -> (r: String)
    ensures
        r@ == printed_or(
            match output {
                Some(o) => Some(o@),
                None => None,
            },
            "None"@,
            "None"@,
        ),
{
    printed_text(output, "None", "None")
}

/// The battery, network and bluetooth part of the system state, from the
/// capacity files and the tools' output (each where it could be had).
pub fn get_telemetry(
    bat0: Option<String>,
    bat1: Option<String>,
    wifi_output: Option<Vec<u8>>,
    bt_show_output: Option<Vec<u8>>,
    bt_devices_output: Option<Vec<u8>>,
) -> (r: (u8, String, bool, String))
    ensures
        r.0 == battery_value(
            match bat0 {
                Some(t) => Some(t@),
                None => None,
            },
            match bat1 {
                Some(t) => Some(t@),
                None => None,
            },
        ),
        r.1@ == printed_or(
            match wifi_output {
                Some(o) => Some(o@),
                None => None,
            },
            "Disconnected"@,
            "Unknown"@,
        ),
        r.2 == (match bt_show_output {
            Some(o) => contains(lossy_decoding(o@), "Powered: yes"@),
            None => false,
        }),
        r.3@ == printed_or(
            match bt_devices_output {
                Some(o) => Some(o@),
                None => None,
            },
            "None"@,
            "None"@,
        ),
{
    let battery = battery_level(bat0, bat1);
    let wifi = wifi_name(wifi_output);
    let bt_on = bluetooth_powered(bt_show_output);
    let device = connected_device(bt_devices_output);
    (battery, wifi, bt_on, device)
}

/// The system state from the readings of the desktop's tools: the audio
/// reading and the volume read from its text, the text `brightnessctl -m`,
/// `hyprctl workspaces -j` and `hyprctl activeworkspace -j` printed, the
/// telemetry and the notification history. It fails where the compositor's
/// answers are not JSON.
pub fn get_system_state(
    audio: &AudioReading,
    volume: u32,
    brightness_text: &str,
    workspaces_json: &str,
    active_json: &str,
    telemetry: (u8, String, bool, String),
    notifications: Vec<Notification>,
) -> (r: Result<SystemState, ReadError>)
    ensures
        r is Ok <==> json_array_ids(workspaces_json@) is Some && json_object_id(active_json@) is Some,
        r is Err ==> r == Err::<SystemState, ReadError>(ReadError::NotJson),
        r matches Ok(st) ==> {
            &&& st.volume == volume
            &&& st.is_muted == audio.is_muted
            &&& st.brightness == brightness_value(brightness_text@)
            &&& is_workspace_list(st.workspaces@, json_array_ids(workspaces_json@)->0)
            &&& st.active_workspace == active_id(json_object_id(active_json@)->0)
            &&& st.battery == telemetry.0
            &&& st.wifi_ssid == telemetry.1
            &&& st.bluetooth_on == telemetry.2
            &&& st.bt_device == telemetry.3
            &&& st.notifications == notifications
        },
{
    let brightness = parse_brightness_output(brightness_text);
    let workspaces = match parse_workspaces(workspaces_json) {
        Ok(w) => w,
        Err(e) => {
            return Err(e);
        },
    };
    let active_workspace = match parse_active_workspace(active_json) {
        Ok(a) => a,
        Err(e) => {
            return Err(e);
        },
    };
    let (battery, wifi_ssid, bluetooth_on, bt_device) = telemetry;
    Ok(
        SystemState {
            volume,
            is_muted: audio.is_muted,
            brightness,
            workspaces,
            active_workspace,
            battery,
            wifi_ssid,
            bluetooth_on,
            bt_device,
            notifications,
        },
    )
}

proof fn lemma_sorted_same_multiset(a: Seq<i32>, b: Seq<i32>)
    requires
        ascending(a),
        ascending(b),
        a.to_multiset() == b.to_multiset(),
    ensures
        a == b,
    decreases a.len(),
{
    assert(a.len() == a.to_multiset().len());
    assert(b.len() == b.to_multiset().len());
    if a.len() == 0 {
        assert(a =~= b);
    } else {
        assert(a.contains(a[0]));
        assert(b.to_multiset().count(a[0]) > 0);
        assert(b.contains(a[0]));
        let k = choose|k: int| 0 <= k < b.len() && b[k] == a[0];
        assert(b[0] <= b[k]);
        assert(b.contains(b[0]));
        assert(a.to_multiset().count(b[0]) > 0);
        assert(a.contains(b[0]));
        let j = choose|j: int| 0 <= j < a.len() && a[j] == b[0];
        assert(a[0] <= a[j]);
        assert(a[0] == b[0]);
        assert(a.remove(0).to_multiset() == a.to_multiset().remove(a[0]));
        assert(b.remove(0).to_multiset() == b.to_multiset().remove(b[0]));
        assert(a.remove(0) =~= a.drop_first());
        assert(b.remove(0) =~= b.drop_first());
        lemma_sorted_same_multiset(a.drop_first(), b.drop_first());
        assert(a =~= seq![a[0]] + a.drop_first());
        assert(b =~= seq![b[0]] + b.drop_first());
    }
}

/// Law: the compositor's answer determines the workspace list: two lists
/// that both fit it are the same list.
pub proof fn law_workspace_list_unique(a: Seq<i32>, b: Seq<i32>, ids: Option<Seq<Option<i64>>>)
    requires
        is_workspace_list(a, ids),
        is_workspace_list(b, ids),
    ensures
        a == b,
{
    lemma_sorted_same_multiset(a, b);
}

} // verus!
