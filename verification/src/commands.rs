//! The external commands that each control request runs, and the ones
//! whose output the daemon reads.

use vstd::prelude::*;

use crate::numbers::{decimal, decimal_i32, decimal_u32, signed_decimal};
use crate::text::{
    chars_of, ends_with, join_text, lines, lines_of, owned, push_chars, push_text, split, split_pieces,
    starts_with, string_of, text_eq, text_starts_with, to_lowercase, trim, trim_chars,
    unicode_lowercase, utf8_decode_lossy, lossy_decoding,
};

verus! {

/// A program and its arguments, run without a shell.
#[derive(Clone, Debug, PartialEq, Eq)]
pub struct CommandLine {
    pub program: String,
    pub args: Vec<String>,
}

/// The views of a list of strings.
pub open spec fn texts(v: Seq<String>) -> Seq<Seq<char>> {
    v.map_values(|a: String| a@)
}

impl View for CommandLine {
    type V = (Seq<char>, Seq<Seq<char>>);

    open spec fn view(&self) -> (Seq<char>, Seq<Seq<char>>) {
        (self.program@, texts(self.args@))
    }
}

/// Why a control request failed.
#[derive(Clone, Copy, Debug, PartialEq, Eq)]
pub enum ControlError {
    /// The home directory is not known, so the theme script cannot be found.
    MissingHome,
    /// The compositor refused to switch workspaces.
    WorkspaceSwitchFailed,
}

fn command0(program: &str) -> (r: CommandLine)
    ensures
        r@ == (program@, Seq::<Seq<char>>::empty()),
{
    let args: Vec<String> = Vec::new();
    let r = CommandLine { program: owned(program), args };
    assert(r@.1 =~= Seq::<Seq<char>>::empty());
    r
}

fn command1(program: &str, a: String) -> (r: CommandLine)
    ensures
        r@ == (program@, seq![a@]),
{
    let mut args: Vec<String> = Vec::new();
    args.push(a);
    let r = CommandLine { program: owned(program), args };
    assert(r@.1 =~= seq![a@]);
    r
}

fn command2(program: &str, a: String, b: String) -> (r: CommandLine)
    ensures
        r@ == (program@, seq![a@, b@]),
{
    let mut args: Vec<String> = Vec::new();
    args.push(a);
    args.push(b);
    let r = CommandLine { program: owned(program), args };
    assert(r@.1 =~= seq![a@, b@]);
    r
}

fn command3(program: &str, a: String, b: String, c: String) -> (r: CommandLine)
    ensures
        r@ == (program@, seq![a@, b@, c@]),
{
    let mut args: Vec<String> = Vec::new();
    args.push(a);
    args.push(b);
    args.push(c);
    let r = CommandLine { program: owned(program), args };
    assert(r@.1 =~= seq![a@, b@, c@]);
    r
}

/// The path of the theme switching script under the home directory.
pub open spec fn theme_script(home: Seq<char>) -> Seq<char> {
    home + "/.config/hypr/scripts/switch_theme.sh"@
}

/// The command that switches the desktop theme to `theme_name`; none where
/// the home directory is not known.
pub fn switch_theme(theme_name: &str, home: Option<&str>) -> (r: Result<CommandLine, ControlError>)
    ensures
        home is None ==> r == Err::<CommandLine, ControlError>(ControlError::MissingHome),
        home matches Some(h) ==> (r matches Ok(c) && c@ == (theme_script(h@), seq![theme_name@])),
{
    match home {
        None => Err(ControlError::MissingHome),
        Some(h) => {
            let script = join_text(h, "/.config/hypr/scripts/switch_theme.sh");
            let mut args: Vec<String> = Vec::new();
            args.push(owned(theme_name));
            let c = CommandLine { program: script, args };
            assert(c@.1 =~= seq![theme_name@]);
            Ok(c)
        },
    }
}

/// The `playerctl` command for a media request, aimed at `player` where
/// one is named.
pub fn control_media(action: &str, player: Option<String>) -> (r: CommandLine)
    ensures
        player is None ==> r@ == ("playerctl"@, seq![action@]),
        player matches Some(p) ==> r@ == ("playerctl"@, seq!["-p"@, p@, action@]),
{
    match player {
        None => command1("playerctl", owned(action)),
        Some(p) => command3("playerctl", owned("-p"), p, owned(action)),
    }
}

/// The command for a system request: `lock` locks the screen; anything
/// else runs nothing.
pub fn control_system(action: &str) -> (r: Option<CommandLine>)
    ensures
        action@ == "lock"@ ==> (r matches Some(c) && c@ == ("hyprlock"@, Seq::<Seq<char>>::empty())),
        action@ != "lock"@ ==> r is None,
{
    if text_eq(action, "lock") {
        Some(command0("hyprlock"))
    } else {
        None
    }
}

/// The compositor dispatcher that focuses workspace `id`.
pub open spec fn focus_dispatcher(id: int) -> Seq<char> {
    "hl.dsp.focus({ workspace = \""@ + signed_decimal(id) + "\" })"@
}

/// The `hyprctl` command that focuses workspace `id`.
pub fn control_workspace(id: i32) -> (r: CommandLine)
    ensures
        r@ == ("hyprctl"@, seq!["dispatch"@, focus_dispatcher(id as int)]),
{
    let mut d = owned("hl.dsp.focus({ workspace = \"");
    let digits = decimal_i32(id);
    push_chars(&mut d, digits.as_slice());
    push_text(&mut d, "\" })");
    command2("hyprctl", owned("dispatch"), d)
}

/// The outcome of a workspace switch, given whether `hyprctl` reported
/// success.
pub fn check_workspace_switch(succeeded: bool) -> (r: Result<(), ControlError>)
    ensures
        succeeded <==> r is Ok,
        !succeeded ==> r == Err::<(), ControlError>(ControlError::WorkspaceSwitchFailed),
{
    if succeeded {
        Ok(())
    } else {
        Err(ControlError::WorkspaceSwitchFailed)
    }
}

/// A percentage argument: the decimal value followed by `%`.
pub open spec fn percent(v: nat) -> Seq<char> {
    decimal(v) + "%"@
}

fn percent_text(v: u32) -> (r: String)
    ensures
        r@ == percent(v as nat),
{
    let digits = decimal_u32(v);
    let mut s = string_of(digits.as_slice());
    push_text(&mut s, "%");
    s
}

/// The `wpctl` command for an audio request: `set` with a value sets the
/// volume to that percentage, `mute` toggles muting; anything else, and
/// `set` without a value, runs nothing.
pub fn control_audio(action: &str, value: Option<u32>) -> (r: Option<CommandLine>)
    ensures
        action@ == "set"@ && value is Some ==> (r matches Some(c) && c@ == (
            "wpctl"@,
            seq!["set-volume"@, "@DEFAULT_AUDIO_SINK@"@, percent(value->0 as nat)],
        )),
        action@ == "mute"@ ==> (r matches Some(c) && c@ == (
            "wpctl"@,
            seq!["set-mute"@, "@DEFAULT_AUDIO_SINK@"@, "toggle"@],
        )),
        !(action@ == "set"@ && value is Some) && action@ != "mute"@ ==> r is None,
{
    proof {
        reveal_strlit("set");
        reveal_strlit("mute");
        assert("set"@ != "mute"@) by {
            assert("set"@.len() != "mute"@.len());
        }
    }
    if text_eq(action, "set") {
        match value {
            Some(v) => Some(
                command3(
                    "wpctl",
                    owned("set-volume"),
                    owned("@DEFAULT_AUDIO_SINK@"),
                    percent_text(v),
                ),
            ),
            None => None,
        }
    } else if text_eq(action, "mute") {
        Some(command3("wpctl", owned("set-mute"), owned("@DEFAULT_AUDIO_SINK@"), owned("toggle")))
    } else {
        None
    }
}

/// The `brightnessctl` command for a brightness request: `set` with a
/// value sets that percentage; anything else runs nothing.
pub fn control_brightness(action: &str, value: Option<u32>) -> (r: Option<CommandLine>)
    ensures
        action@ == "set"@ && value is Some ==> (r matches Some(c) && c@ == (
            "brightnessctl"@,
            seq!["set"@, percent(value->0 as nat)],
        )),
        !(action@ == "set"@ && value is Some) ==> r is None,
{
    if text_eq(action, "set") {
        match value {
            Some(v) => Some(command2("brightnessctl", owned("set"), percent_text(v))),
            None => None,
        }
    } else {
        None
    }
}

/// The command that asks `bluetoothctl` for the controller's state.
pub open spec fn bluetooth_show() -> (Seq<char>, Seq<Seq<char>>) {
    ("bluetoothctl"@, seq!["show"@])
}

/// For a bluetooth request, the command whose output decides the toggle:
/// `toggle` asks for the controller's state; anything else runs nothing.
pub fn control_bluetooth(action: &str) -> (r: Option<CommandLine>)
    ensures
        action@ == "toggle"@ ==> (r matches Some(c) && c@ == bluetooth_show()),
        action@ != "toggle"@ ==> r is None,
{
    if text_eq(action, "toggle") {
        Some(command1("bluetoothctl", owned("show")))
    } else {
        None
    }
}

/// Piece `i` of `pieces`, or nothing where there are fewer pieces.
pub open spec fn piece(pieces: Seq<Seq<char>>, i: int) -> Seq<char> {
    if 0 <= i < pieces.len() {
        pieces[i]
    } else {
        Seq::empty()
    }
}

/// The lower-cased value of the first `Powered:` line among `ls`, if any.
pub open spec fn powered_value(ls: Seq<Seq<char>>) -> Option<Seq<char>>
    decreases ls.len(),
{
    if ls.len() == 0 {
        None
    } else {
        let l = trim(ls[0]);
        if starts_with(l, "Powered:"@) {
            Some(unicode_lowercase(trim(piece(split(l, ":"@), 1))))
        } else {
            powered_value(ls.drop_first())
        }
    }
}

/// Whether the controller state `bluetoothctl show` printed says the
/// controller is powered: its first `Powered:` line says `yes` or `true`
/// in any case.
pub open spec fn reports_powered(output: Seq<u8>) -> bool {
    match powered_value(lines(lossy_decoding(output))) {
        Some(v) => v == "yes"@ || v == "true"@,
        None => false,
    }
}

/// The `bluetoothctl` command that toggles the controller, given what
/// `bluetoothctl show` printed: power off where it reports the controller
/// powered, on otherwise.
pub fn bluetooth_power_command(show_output: &[u8]) -> (r: CommandLine)
    ensures
        reports_powered(show_output@) ==> r@ == ("bluetoothctl"@, seq!["power"@, "off"@]),
        !reports_powered(show_output@) ==> r@ == ("bluetoothctl"@, seq!["power"@, "on"@]),
{
    let text = utf8_decode_lossy(show_output);
    let cs = chars_of(text.as_str());
    let ls = lines_of(cs.as_slice());
    let ghost gl = lines(lossy_decoding(show_output@));
    let mut found: Option<String> = None;
    let mut i: usize = 0;
    let colon: Vec<char> = vec![':'];
    assert(colon@ =~= ":"@) by {
        reveal_strlit(":");
    }
    assert(gl.skip(0) =~= gl);
    while i < ls.len() && found.is_none()
        invariant
            ls@.len() == gl.len(),
            forall|k: int| 0 <= k < ls@.len() ==> #[trigger] ls@[k]@ == gl[k],
            i <= ls@.len(),
            colon@ == ":"@,
            colon@.len() == 1,
            found is None ==> powered_value(gl) == powered_value(gl.skip(i as int)),
            found matches Some(v) ==> powered_value(gl) == Some(v@),
        decreases ls.len() - i,
    {
        let l = trim_chars(ls[i].as_slice());
        let ls_i = string_of(l.as_slice());
        assert(gl.skip(i as int).drop_first() =~= gl.skip(i + 1));
        assert(gl.skip(i as int)[0] == gl[i as int]);
        if text_starts_with(ls_i.as_str(), "Powered:") {
            let pieces = split_pieces(l.as_slice(), colon.as_slice());
            let second: Vec<char> = if pieces.len() > 1 {
                trim_chars(pieces[1].as_slice())
            } else {
                trim_chars(Vec::<char>::new().as_slice())
            };
            proof {
                assert(trim(piece(split(l@, ":"@), 1)) == second@);
            }
            let s2 = string_of(second.as_slice());
            found = Some(to_lowercase(s2.as_str()));
        }
        i = i + 1;
    }
    proof {
        if found is None {
            assert(gl.skip(gl.len() as int) =~= Seq::<Seq<char>>::empty());
        }
    }
    let powered = match found {
        Some(v) => text_eq(v.as_str(), "yes") || text_eq(v.as_str(), "true"),
        None => false,
    };
    if powered {
        command2("bluetoothctl", owned("power"), owned("off"))
    } else {
        command2("bluetoothctl", owned("power"), owned("on"))
    }
}

/// The `sh -c` command that runs `command` through the shell.
pub fn execute_command(command: &str) -> (r: CommandLine)
    ensures
        r@ == ("sh"@, seq!["-c"@, command@]),
{
    command2("sh", owned("-c"), owned(command))
}

/// The tool outputs that the daemon reads.
#[derive(Clone, Copy, Debug, PartialEq, Eq)]
pub enum Reading {
    /// The default sink's volume.
    Volume,
    /// The display brightness.
    Brightness,
    /// The compositor's workspaces.
    Workspaces,
    /// The compositor's active workspace.
    ActiveWorkspace,
    /// The connected wireless network.
    Wifi,
    /// The bluetooth controller's state.
    BluetoothState,
    /// The connected bluetooth devices.
    BluetoothDevices,
    /// The media players.
    Players,
}

/// The command whose output gives `reading`.
pub open spec fn reading_spec(reading: Reading) -> (Seq<char>, Seq<Seq<char>>) {
    match reading {
        Reading::Volume => ("wpctl"@, seq!["get-volume"@, "@DEFAULT_AUDIO_SINK@"@]),
        Reading::Brightness => ("brightnessctl"@, seq!["-m"@]),
        Reading::Workspaces => ("hyprctl"@, seq!["workspaces"@, "-j"@]),
        Reading::ActiveWorkspace => ("hyprctl"@, seq!["activeworkspace"@, "-j"@]),
        Reading::Wifi => (
            "sh"@,
            seq!["-c"@, "nmcli -t -f active,ssid dev wifi | grep '^yes' | cut -d':' -f2"@],
        ),
        Reading::BluetoothState => bluetooth_show(),
        Reading::BluetoothDevices => (
            "sh"@,
            seq!["-c"@, "bluetoothctl devices Connected | cut -d' ' -f3-"@],
        ),
        Reading::Players => ("playerctl"@, seq!["-l"@]),
    }
}

/// The command whose output gives `reading`.
pub fn reading_command(reading: Reading) -> (r: CommandLine)
    ensures
        r@ == reading_spec(reading),
        reading is Volume ==> r@ == ("wpctl"@, seq!["get-volume"@, "@DEFAULT_AUDIO_SINK@"@]),
        reading is Brightness ==> r@ == ("brightnessctl"@, seq!["-m"@]),
        reading is Workspaces ==> r@ == ("hyprctl"@, seq!["workspaces"@, "-j"@]),
        reading is ActiveWorkspace ==> r@ == ("hyprctl"@, seq!["activeworkspace"@, "-j"@]),
        reading is Wifi ==> r@ == (
            "sh"@,
            seq!["-c"@, "nmcli -t -f active,ssid dev wifi | grep '^yes' | cut -d':' -f2"@],
        ),
        reading is BluetoothState ==> r@ == ("bluetoothctl"@, seq!["show"@]),
        reading is BluetoothDevices ==> r@ == (
            "sh"@,
            seq!["-c"@, "bluetoothctl devices Connected | cut -d' ' -f3-"@],
        ),
        reading is Players ==> r@ == ("playerctl"@, seq!["-l"@]),
{
    match reading {
        Reading::Volume => command2("wpctl", owned("get-volume"), owned("@DEFAULT_AUDIO_SINK@")),
        Reading::Brightness => command1("brightnessctl", owned("-m")),
        Reading::Workspaces => command2("hyprctl", owned("workspaces"), owned("-j")),
        Reading::ActiveWorkspace => command2("hyprctl", owned("activeworkspace"), owned("-j")),
        Reading::Wifi => command2(
            "sh",
            owned("-c"),
            owned("nmcli -t -f active,ssid dev wifi | grep '^yes' | cut -d':' -f2"),
        ),
        Reading::BluetoothState => command1("bluetoothctl", owned("show")),
        Reading::BluetoothDevices => command2(
            "sh",
            owned("-c"),
            owned("bluetoothctl devices Connected | cut -d' ' -f3-"),
        ),
        Reading::Players => command1("playerctl", owned("-l")),
    }
}

/// Law: the wireless reading keeps, of the active connection's line
/// `yes:<ssid>`, the second colon-separated field, the network's name; and
/// the connected-devices reading drops the first two space-separated fields
/// (`Device` and the address), keeping the device's name.
pub proof fn law_readings_select_names()
    ensures
        ends_with(reading_spec(Reading::Wifi).1[1], "| grep '^yes' | cut -d':' -f2"@),
        ends_with(reading_spec(Reading::BluetoothDevices).1[1], "| cut -d' ' -f3-"@),
        reading_spec(Reading::Wifi).0 == "sh"@,
        reading_spec(Reading::BluetoothDevices).0 == "sh"@,
{
    reveal_strlit("nmcli -t -f active,ssid dev wifi | grep '^yes' | cut -d':' -f2");
    reveal_strlit("| grep '^yes' | cut -d':' -f2");
    reveal_strlit("bluetoothctl devices Connected | cut -d' ' -f3-");
    reveal_strlit("| cut -d' ' -f3-");
    let w = "nmcli -t -f active,ssid dev wifi | grep '^yes' | cut -d':' -f2"@;
    let ws = "| grep '^yes' | cut -d':' -f2"@;
    assert(w.subrange(w.len() - ws.len(), w.len() as int) =~= ws);
    let b = "bluetoothctl devices Connected | cut -d' ' -f3-"@;
    let bs = "| cut -d' ' -f3-"@;
    assert(b.subrange(b.len() - bs.len(), b.len() as int) =~= bs);
}

} // verus!
