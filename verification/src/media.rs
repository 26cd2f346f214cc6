//! Icons, cover art and the media players' metadata.

use vstd::prelude::*;

use crate::commands::CommandLine;
use crate::models::MediaMetadata;
use crate::text::{
    chars_of, join_text, ends_with, lines, lines_of, lossy_decoding, owned, push_text, replace_all,
    replaced, split, split_pieces, starts_with, strip_leading, strip_leading_chars, string_of,
    text_ends_with, text_eq, text_starts_with, to_lowercase, trim, trim_chars, trimmed,
    unicode_lowercase, utf8_decode_lossy,
};

verus! {

/// The picture served where no icon or cover art is found: an empty,
/// invisible SVG image.
pub const BLANK_SVG: &'static str = "<svg xmlns=\"http://www.w3.org/2000/svg\" viewBox=\"0 0 1 1\"></svg>";

/// The places searched for the icon `name`, in order: the hicolor theme at
/// several sizes, the pixmaps, Flatpak's exported icons, and the user's own
/// icons where the home directory is known.
pub open spec fn icon_candidates(name: Seq<char>, home: Option<Seq<char>>) -> Seq<Seq<char>> {
    let base = seq![
        "/usr/share/icons/hicolor/scalable/apps/"@ + name + ".svg"@,
        "/usr/share/icons/hicolor/128x128/apps/"@ + name + ".png"@,
        "/usr/share/icons/hicolor/64x64/apps/"@ + name + ".png"@,
        "/usr/share/icons/hicolor/48x48/apps/"@ + name + ".png"@,
        "/usr/share/icons/hicolor/256x256/apps/"@ + name + ".png"@,
        "/usr/share/pixmaps/"@ + name + ".png"@,
        "/usr/share/pixmaps/"@ + name + ".svg"@,
        "/var/lib/flatpak/exports/share/icons/hicolor/scalable/apps/"@ + name + ".svg"@,
        "/var/lib/flatpak/exports/share/icons/hicolor/128x128/apps/"@ + name + ".png"@,
        "/var/lib/flatpak/exports/share/icons/hicolor/64x64/apps/"@ + name + ".png"@,
    ];
    match home {
        Some(h) => base + seq![
            h + "/.local/share/icons/hicolor/scalable/apps/"@ + name + ".svg"@,
            h + "/.local/share/icons/hicolor/128x128/apps/"@ + name + ".png"@,
            h + "/.local/share/icons/hicolor/64x64/apps/"@ + name + ".png"@,
        ],
        None => base,
    }
}

/// Where an icon is to be found.
#[derive(Clone, Debug, PartialEq, Eq)]
pub enum IconLookup {
    /// The name is an absolute path, used as it is.
    Found(String),
    /// The first of these paths that exists holds the icon.
    Probe(Vec<String>),
}

/// The views of a list of strings.
pub open spec fn string_views(v: Seq<String>) -> Seq<Seq<char>> {
    v.map_values(|s: String| s@)
}

fn path_of(prefix: &str, name: &str, suffix: &str) -> (r: String)
    ensures
        r@ == prefix@ + name@ + suffix@,
{
    let mut s = join_text(prefix, name);
    push_text(&mut s, suffix);
    s
}

/// Where to find the icon `icon_name`: an absolute path is used as it is;
/// any other name is looked for in the icon directories.
pub fn resolve_icon_path(icon_name: &str, home: Option<&str>) -> (r: IconLookup)
    ensures
        starts_with(icon_name@, "/"@) ==> (r matches IconLookup::Found(p) && p@ == icon_name@),
        !starts_with(icon_name@, "/"@) ==> (r matches IconLookup::Probe(ps) && string_views(ps@)
            == icon_candidates(
            icon_name@,
            match home {
                Some(h) => Some(h@),
                None => None,
            },
        )),
{
    if text_starts_with(icon_name, "/") {
        return IconLookup::Found(owned(icon_name));
    }
    let n = icon_name;
    let mut ps: Vec<String> = Vec::new();
    ps.push(path_of("/usr/share/icons/hicolor/scalable/apps/", n, ".svg"));
    ps.push(path_of("/usr/share/icons/hicolor/128x128/apps/", n, ".png"));
    ps.push(path_of("/usr/share/icons/hicolor/64x64/apps/", n, ".png"));
    ps.push(path_of("/usr/share/icons/hicolor/48x48/apps/", n, ".png"));
    ps.push(path_of("/usr/share/icons/hicolor/256x256/apps/", n, ".png"));
    ps.push(path_of("/usr/share/pixmaps/", n, ".png"));
    ps.push(path_of("/usr/share/pixmaps/", n, ".svg"));
    ps.push(path_of("/var/lib/flatpak/exports/share/icons/hicolor/scalable/apps/", n, ".svg"));
    ps.push(path_of("/var/lib/flatpak/exports/share/icons/hicolor/128x128/apps/", n, ".png"));
    ps.push(path_of("/var/lib/flatpak/exports/share/icons/hicolor/64x64/apps/", n, ".png"));
    match home {
        Some(h) => {
            let a = join_text(h, "/.local/share/icons/hicolor/scalable/apps/");
            ps.push(path_of(a.as_str(), n, ".svg"));
            let b = join_text(h, "/.local/share/icons/hicolor/128x128/apps/");
            ps.push(path_of(b.as_str(), n, ".png"));
            let c = join_text(h, "/.local/share/icons/hicolor/64x64/apps/");
            ps.push(path_of(c.as_str(), n, ".png"));
        },
        None => {},
    }
    assert(string_views(ps@) =~= icon_candidates(
        icon_name@,
        match home {
            Some(h) => Some(h@),
            None => None,
        },
    ));
    IconLookup::Probe(ps)
}

/// The index of the first `true` in `e`.
pub open spec fn first_true(e: Seq<bool>) -> Option<int>
    decreases e.len(),
{
    if e.len() == 0 {
        None
    } else if e[0] {
        Some(0)
    } else {
        match first_true(e.drop_first()) {
            Some(k) => Some(k + 1),
            None => None,
        }
    }
}

proof fn lemma_first_true_skip(e: Seq<bool>, i: int)
    requires
        0 <= i <= e.len(),
        forall|j: int| 0 <= j < i ==> !e[j],
    ensures
        first_true(e) == (match first_true(e.skip(i)) {
            Some(k) => Some(k + i),
            None => None,
        }),
    decreases i,
{
    if i > 0 {
        assert(e.drop_first().skip(i - 1) =~= e.skip(i));
        lemma_first_true_skip(e.drop_first(), i - 1);
    } else {
        assert(e.skip(0) =~= e);
    }
}

/// The first of `paths` whose entry in `exists` is true (a path without an
/// entry counts as missing).
pub fn first_existing(paths: &Vec<String>, exists: &Vec<bool>) -> (r: Option<String>)
    ensures
        ({
            let n = if paths@.len() < exists@.len() {
                paths@.len() as int
            } else {
                exists@.len() as int
            };
            match first_true(exists@.take(n)) {
                Some(k) => r matches Some(p) && p@ == paths@[k]@,
                None => r is None,
            }
        }),
{
    let n: usize = if paths.len() < exists.len() {
        paths.len()
    } else {
        exists.len()
    };
    let ghost e = exists@.take(n as int);
    let mut i: usize = 0;
    while i < n
        invariant
            i <= n,
            n == (if paths@.len() < exists@.len() {
                paths@.len()
            } else {
                exists@.len()
            }),
            e == exists@.take(n as int),
            forall|k: int| 0 <= k < i ==> !e[k],
        decreases n - i,
    {
        if exists[i] {
            proof {
                lemma_first_true_skip(e, i as int);
                assert(e.skip(i as int)[0]);
                assert(first_true(e.skip(i as int)) == Some(0int));
                assert(first_true(e) == Some(i as int));
            }
            let found = paths[i].clone();
            assert(found@ == paths@[i as int]@);
            return Some(found);
        }
        i = i + 1;
    }
    proof {
        lemma_first_true_skip(e, i as int);
        assert(e.skip(i as int).len() == 0);
    }
    None
}

/// The content type of an icon file: SVG for paths ending in `.svg`, PNG
/// otherwise.
pub fn icon_mime(path: &str) -> (r: &'static str)
    ensures
        ends_with(path@, ".svg"@) ==> r@ == "image/svg+xml"@,
        !ends_with(path@, ".svg"@) ==> r@ == "image/png"@,
{
    if text_ends_with(path, ".svg") {
        "image/svg+xml"
    } else {
        "image/png"
    }
}

/// Where cover art comes from.
#[derive(Clone, Debug, PartialEq, Eq)]
pub enum ArtSource {
    /// A local file, to be read.
    File(String),
    /// A web address, to which the browser is sent.
    Redirect(String),
    /// Nothing usable: the blank picture.
    Blank,
}

/// The local path of a `file://` URL: every leading `file://` removed and
/// each `%20` decoded to a space.
pub open spec fn file_url_path(url: Seq<char>) -> Seq<char> {
    replaced(strip_leading(url, "file://"@), "%20"@, " "@)
}

/// Where the cover art at `url` comes from: a `file://` URL names a local
/// file, an `http` URL is sent to the browser, anything else is blank.
pub fn media_art_source(url: &str) -> (r: ArtSource)
    ensures
        starts_with(url@, "file://"@) ==> (r matches ArtSource::File(p) && p@ == file_url_path(
            url@,
        )),
        !starts_with(url@, "file://"@) && starts_with(url@, "http"@) ==> (r matches ArtSource::Redirect(
            u,
        ) && u@ == url@),
        !starts_with(url@, "file://"@) && !starts_with(url@, "http"@) ==> r is Blank,
{
    if text_starts_with(url, "file://") {
        let cs = chars_of(url);
        let prefix = chars_of("file://");
        let rest = strip_leading_chars(cs.as_slice(), prefix.as_slice());
        let pat = chars_of("%20");
        let sp = chars_of(" ");
        proof {
            reveal_strlit("%20");
        }
        let path = replace_all(rest.as_slice(), pat.as_slice(), sp.as_slice());
        ArtSource::File(string_of(path.as_slice()))
    } else if text_starts_with(url, "http") {
        ArtSource::Redirect(owned(url))
    } else {
        ArtSource::Blank
    }
}

/// The content type of a cover art file, by the extension of its
/// lower-cased path: PNG, SVG, or JPEG for anything else.
pub fn art_mime(path: &str) -> (r: &'static str)
    ensures
        ends_with(unicode_lowercase(path@), ".png"@) ==> r@ == "image/png"@,
        !ends_with(unicode_lowercase(path@), ".png"@) && ends_with(
            unicode_lowercase(path@),
            ".svg"@,
        ) ==> r@ == "image/svg+xml"@,
        !ends_with(unicode_lowercase(path@), ".png"@) && !ends_with(
            unicode_lowercase(path@),
            ".svg"@,
        ) ==> r@ == "image/jpeg"@,
{
    let lower = to_lowercase(path);
    if text_ends_with(lower.as_str(), ".png") {
        "image/png"
    } else if text_ends_with(lower.as_str(), ".svg") {
        "image/svg+xml"
    } else {
        "image/jpeg"
    }
}

/// Media metadata as the player, title, artist, art URL and status.
pub type MediaView = (Seq<char>, Seq<char>, Seq<char>, Seq<char>, Seq<char>);

impl View for MediaMetadata {
    type V = MediaView;

    open spec fn view(&self) -> MediaView {
        (self.player_name@, self.title@, self.artist@, self.art_url@, self.status@)
    }
}

/// The views of a list of media metadata.
pub open spec fn media_views(v: Seq<MediaMetadata>) -> Seq<MediaView> {
    v.map_values(|m: MediaMetadata| m@)
}

/// The non-blank lines of `ls`, trimmed.
pub open spec fn nonblank_trimmed(ls: Seq<Seq<char>>) -> Seq<Seq<char>>
    decreases ls.len(),
{
    if ls.len() == 0 {
        Seq::empty()
    } else {
        let rest = nonblank_trimmed(ls.drop_last());
        let t = trim(ls.last());
        if t.len() == 0 {
            rest
        } else {
            rest.push(t)
        }
    }
}

/// The players that `playerctl -l` listed: its non-blank lines, trimmed.
pub fn player_names(output: &[u8]) -> (r: Vec<String>)
    ensures
        string_views(r@) == nonblank_trimmed(lines(lossy_decoding(output@))),
{
    let text = utf8_decode_lossy(output);
    let cs = chars_of(text.as_str());
    let ls = lines_of(cs.as_slice());
    let ghost gl = lines(lossy_decoding(output@));
    let mut out: Vec<String> = Vec::new();
    let mut i: usize = 0;
    assert(gl.take(0) =~= Seq::<Seq<char>>::empty());
    assert(string_views(out@) =~= Seq::<Seq<char>>::empty());
    while i < ls.len()
        invariant
            ls@.len() == gl.len(),
            forall|k: int| 0 <= k < ls@.len() ==> #[trigger] ls@[k]@ == gl[k],
            i <= ls@.len(),
            string_views(out@) == nonblank_trimmed(gl.take(i as int)),
        decreases ls.len() - i,
    {
        assert(gl.take(i + 1).drop_last() =~= gl.take(i as int));
        assert(gl.take(i + 1).last() == ls@[i as int]@);
        let t = trim_chars(ls[i].as_slice());
        if t.len() > 0 {
            let ghost before = out@;
            out.push(string_of(t.as_slice()));
            assert(string_views(out@) =~= string_views(before).push(t@));
        }
        i = i + 1;
    }
    assert(gl.take(gl.len() as int) =~= gl);
    out
}

/// The format in which `playerctl` is asked for a player's metadata.
pub open spec fn metadata_format() -> Seq<char> {
    "{{title}}|~|{{artist}}|~|{{mpris:artUrl}}|~|{{status}}"@
}

/// The `playerctl` command that prints what `player` is playing.
pub fn player_metadata_command(player: &str) -> (r: CommandLine)
    ensures
        r@ == ("playerctl"@, seq!["-p"@, player@, "metadata"@, "--format"@, metadata_format()]),
{
    let mut args: Vec<String> = Vec::new();
    args.push(owned("-p"));
    args.push(owned(player));
    args.push(owned("metadata"));
    args.push(owned("--format"));
    args.push(owned("{{title}}|~|{{artist}}|~|{{mpris:artUrl}}|~|{{status}}"));
    let r = CommandLine { program: owned("playerctl"), args };
    assert(r@.1 =~= seq!["-p"@, player@, "metadata"@, "--format"@, metadata_format()]);
    r
}

/// Piece `i` of `parts`, or `d` where there are fewer pieces.
pub open spec fn piece_or(parts: Seq<Seq<char>>, i: int, d: Seq<char>) -> Seq<char> {
    if 0 <= i < parts.len() {
        parts[i]
    } else {
        d
    }
}

/// What `player` is playing, from the metadata `playerctl` printed for it:
/// nothing where it printed nothing, or where it has no title and is
/// neither playing nor paused. A missing title reads `Unknown Media`, a
/// missing artist `Unknown`, a missing status `Stopped`.
pub open spec fn metadata_entry(player: Seq<char>, out: Seq<u8>) -> Option<MediaView> {
    let t = trim(lossy_decoding(out));
    if t.len() == 0 {
        None
    } else {
        let parts = split(t, "|~|"@);
        let title = trim(piece_or(parts, 0, ""@));
        let status = trim(piece_or(parts, 3, "Stopped"@));
        if title.len() > 0 || status == "Playing"@ || status == "Paused"@ {
            Some(
                (
                    player,
                    if title.len() == 0 {
                        "Unknown Media"@
                    } else {
                        title
                    },
                    trim(piece_or(parts, 1, "Unknown"@)),
                    trim(piece_or(parts, 2, ""@)),
                    status,
                ),
            )
        } else {
            None
        }
    }
}

fn trimmed_piece(parts: &Vec<Vec<char>>, i: usize, d: &str) -> (r: String)
    ensures
        r@ == trim(piece_or(parts@.map_values(|v: Vec<char>| v@), i as int, d@)),
{
    if i < parts.len() {
        let t = trim_chars(parts[i].as_slice());
        string_of(t.as_slice())
    } else {
        trimmed(d)
    }
}

/// Reads what `player` is playing from the metadata `playerctl` printed.
pub fn player_entry(player: &str, output: &[u8]) -> (r: Option<MediaMetadata>)
    ensures
        match r {
            Some(m) => metadata_entry(player@, output@) == Some(m@),
            None => metadata_entry(player@, output@) is None,
        },
{
    let text = utf8_decode_lossy(output);
    let t = trimmed(text.as_str());
    if t.as_str().is_empty() {
        return None;
    }
    let cs = chars_of(t.as_str());
    let sep = chars_of("|~|");
    proof {
        reveal_strlit("|~|");
    }
    let parts = split_pieces(cs.as_slice(), sep.as_slice());
    let ghost pv = parts@.map_values(|v: Vec<char>| v@);
    assert(pv =~= split(t@, "|~|"@));
    let title = trimmed_piece(&parts, 0, "");
    let status = trimmed_piece(&parts, 3, "Stopped");
    if !title.as_str().is_empty() || text_eq(status.as_str(), "Playing") || text_eq(
        status.as_str(),
        "Paused",
    ) {
        let shown = if title.as_str().is_empty() {
            owned("Unknown Media")
        } else {
            title
        };
        let artist = trimmed_piece(&parts, 1, "Unknown");
        let art_url = trimmed_piece(&parts, 2, "");
        Some(
            MediaMetadata {
                player_name: owned(player),
                title: shown,
                artist,
                art_url,
                status,
            },
        )
    } else {
        None
    }
}

/// The entry for a stream of the local Stremio engine: playing where it
/// streams fast, paused otherwise.
pub open spec fn stremio_view(stream_name: Seq<char>, fast: bool) -> MediaView {
    (
        "Stremio Native"@,
        stream_name,
        "Local Engine"@,
        ""@,
        if fast {
            "Playing"@
        } else {
            "Paused"@
        },
    )
}

/// The entry for a stream of the local Stremio engine, given its name and
/// whether it streams faster than 1024 bytes per second.
pub fn stremio_entry(stream_name: &str, fast: bool) -> (r: MediaMetadata)
    ensures
        r@ == stremio_view(stream_name@, fast),
{
    MediaMetadata {
        player_name: owned("Stremio Native"),
        title: owned(stream_name),
        artist: owned("Local Engine"),
        art_url: owned(""),
        status: if fast {
            owned("Playing")
        } else {
            owned("Paused")
        },
    }
}

/// The entries of the players, from each player's name and the metadata it
/// printed (none where `playerctl` could not be run for it), in order.
pub open spec fn player_entries(players: Seq<(Seq<char>, Option<Seq<u8>>)>) -> Seq<MediaView>
    decreases players.len(),
{
    if players.len() == 0 {
        Seq::empty()
    } else {
        let rest = player_entries(players.drop_last());
        let (name, out) = players.last();
        match out {
            Some(o) => match metadata_entry(name, o) {
                Some(m) => rest.push(m),
                None => rest,
            },
            None => rest,
        }
    }
}

/// The views of the players' names and outputs.
pub open spec fn player_views(v: Seq<(String, Option<Vec<u8>>)>) -> Seq<(Seq<char>, Option<Seq<u8>>)> {
    v.map_values(
        |p: (String, Option<Vec<u8>>)|
            (
                p.0@,
                match p.1 {
                    Some(o) => Some(o@),
                    None => None,
                },
            ),
    )
}

/// Everything that is playing: the players' entries in order, then the
/// local Stremio stream where there is one (its name, and whether it
/// streams fast).
pub fn get_media_metadata(
    players: &Vec<(String, Option<Vec<u8>>)>,
    stremio: Option<(String, bool)>,
) -> (r: Vec<MediaMetadata>)
    ensures
        media_views(r@) == (match stremio {
            Some((n, f)) => player_entries(player_views(players@)).push(stremio_view(n@, f)),
            None => player_entries(player_views(players@)),
        }),
{
    let ghost pv = player_views(players@);
    let mut out: Vec<MediaMetadata> = Vec::new();
    let mut i: usize = 0;
    assert(pv.take(0) =~= Seq::<(Seq<char>, Option<Seq<u8>>)>::empty());
    assert(media_views(out@) =~= Seq::<MediaView>::empty());
    while i < players.len()
        invariant
            i <= players@.len(),
            pv == player_views(players@),
            media_views(out@) == player_entries(pv.take(i as int)),
        decreases players.len() - i,
    {
        assert(pv.take(i + 1).drop_last() =~= pv.take(i as int));
        assert(pv.take(i + 1).last() == pv[i as int]);
        let (name, output) = &players[i];
        let ghost before = out@;
        match output {
            Some(o) => {
                match player_entry(name.as_str(), o.as_slice()) {
                    Some(m) => {
                        out.push(m);
                        assert(media_views(out@) =~= media_views(before).push(m@));
                    },
                    None => {},
                }
            },
            None => {},
        }
        i = i + 1;
    }
    assert(pv.take(players@.len() as int) =~= pv);
    match stremio {
        Some((n, f)) => {
            let ghost before = out@;
            let m = stremio_entry(n.as_str(), f);
            out.push(m);
            assert(media_views(out@) =~= media_views(before).push(m@));
        },
        None => {},
    }
    out
}

/// Law: the entries of two lists of players, one after the other, are the
/// entries of the first list followed by those of the second: each player
/// contributes independently of the others.
pub proof fn law_player_entries_concat(
    ps: Seq<(Seq<char>, Option<Seq<u8>>)>,
    qs: Seq<(Seq<char>, Option<Seq<u8>>)>,
)
    ensures
        player_entries(ps + qs) == player_entries(ps) + player_entries(qs),
    decreases qs.len(),
{
    if qs.len() == 0 {
        assert(ps + qs =~= ps);
        assert(player_entries(ps) + player_entries(qs) =~= player_entries(ps));
    } else {
        law_player_entries_concat(ps, qs.drop_last());
        assert((ps + qs).drop_last() =~= ps + qs.drop_last());
        assert((ps + qs).last() == qs.last());
        let a = player_entries(ps);
        let b = player_entries(qs.drop_last());
        let (name, out) = qs.last();
        match out {
            Some(o) => match metadata_entry(name, o) {
                Some(m) => {
                    assert((a + b).push(m) =~= a + b.push(m));
                },
                None => {},
            },
            None => {},
        }
    }
}

/// Law: a single player gives the entry its own metadata describes, if
/// any.
pub proof fn law_player_entries_one(name: Seq<char>, out: Option<Seq<u8>>)
    ensures
        player_entries(seq![(name, out)]) == (match out {
            Some(o) => match metadata_entry(name, o) {
                Some(m) => seq![m],
                None => Seq::<MediaView>::empty(),
            },
            None => Seq::<MediaView>::empty(),
        }),
{
    assert(seq![(name, out)].drop_last() =~= Seq::<(Seq<char>, Option<Seq<u8>>)>::empty());
    assert(player_entries(Seq::<(Seq<char>, Option<Seq<u8>>)>::empty()) == Seq::<MediaView>::empty());
    assert(seq![(name, out)].last() == (name, out));
    match out {
        Some(o) => match metadata_entry(name, o) {
            Some(m) => {
                assert(Seq::<MediaView>::empty().push(m) =~= seq![m]);
            },
            None => {},
        },
        None => {},
    }
}

/// Whether a player's metadata yields an entry.
pub open spec fn yields_entry() -> spec_fn((Seq<char>, Option<Seq<u8>>)) -> bool {
    |p: (Seq<char>, Option<Seq<u8>>)|
        match p.1 {
            Some(o) => metadata_entry(p.0, o) is Some,
            None => false,
        }
}

/// Law: every player whose metadata yields an entry, wherever it stands in
/// the list, has that entry listed, and there are exactly as many entries
/// as such players.
pub proof fn law_every_player_listed(ps: Seq<(Seq<char>, Option<Seq<u8>>)>)
    ensures
        player_entries(ps).len() == ps.filter(yields_entry()).len(),
        forall|i: int|
            0 <= i < ps.len() && (#[trigger] yields_entry()(ps[i])) ==> player_entries(ps).contains(
                metadata_entry(ps[i].0, ps[i].1->0)->0,
            ),
    decreases ps.len(),
{
    reveal_with_fuel(Seq::<_>::filter, 1);
    if ps.len() > 0 {
        law_every_player_listed(ps.drop_last());
        let rest = player_entries(ps.drop_last());
        assert forall|i: int|
            0 <= i < ps.len() && (#[trigger] yields_entry()(ps[i])) implies player_entries(
                ps,
            ).contains(metadata_entry(ps[i].0, ps[i].1->0)->0) by {
            let m = metadata_entry(ps[i].0, ps[i].1->0)->0;
            if i < ps.len() - 1 {
                assert(ps.drop_last()[i] == ps[i]);
                assert(yields_entry()(ps.drop_last()[i]));
                assert(rest.contains(m));
                let k = choose|k: int| 0 <= k < rest.len() && rest[k] == m;
                assert(player_entries(ps)[k] == m);
            } else {
                assert(ps.last() == ps[i]);
                assert(player_entries(ps) == rest.push(m));
                assert(player_entries(ps)[rest.len() as int] == m);
            }
        }
    }
}

proof fn lemma_framed_distinct(
    p1: Seq<char>,
    s1: Seq<char>,
    p2: Seq<char>,
    s2: Seq<char>,
    n: Seq<char>,
)
    requires
        s1.len() == 4,
        s2.len() == 4,
        p1 != p2 || s1 != s2,
    ensures
        p1 + n + s1 != p2 + n + s2,
{
    if p1 + n + s1 == p2 + n + s2 {
        let x = p1 + n + s1;
        let y = p2 + n + s2;
        assert(x.len() == y.len());
        assert(x.len() == p1.len() + n.len() + 4);
        assert(y.len() == p2.len() + n.len() + 4);
        assert(p1.len() == p2.len());
        assert(p1 =~= x.take(p1.len() as int));
        assert(p2 =~= y.take(p2.len() as int));
        assert(s1 =~= x.skip(x.len() - 4));
        assert(s2 =~= y.skip(y.len() - 4));
    }
}

proof fn lemma_no_home_prefix(h: Seq<char>, q: Seq<char>, p: Seq<char>, k: int)
    requires
        0 <= k < q.len() <= p.len(),
        p[p.len() - q.len() + k] != q[k],
    ensures
        h + q != p,
{
    if h + q == p {
        assert((h + q)[h.len() + k] == q[k]);
    }
}

/// Law: the places probed for an icon are all different: no path is
/// probed twice, so each of the icon directories contributes its own
/// candidate.
pub proof fn law_icon_candidates_distinct(name: Seq<char>, home: Option<Seq<char>>)
    ensures
        forall|i: int, j: int|
            0 <= i < j < icon_candidates(name, home).len() ==> icon_candidates(name, home)[i]
                != icon_candidates(name, home)[j],
{
    reveal_strlit("/.local/share/icons/hicolor/128x128/apps/");
    reveal_strlit("/.local/share/icons/hicolor/64x64/apps/");
    reveal_strlit("/.local/share/icons/hicolor/scalable/apps/");
    reveal_strlit("/usr/share/icons/hicolor/128x128/apps/");
    reveal_strlit("/usr/share/icons/hicolor/256x256/apps/");
    reveal_strlit("/usr/share/icons/hicolor/48x48/apps/");
    reveal_strlit("/usr/share/icons/hicolor/64x64/apps/");
    reveal_strlit("/usr/share/icons/hicolor/scalable/apps/");
    reveal_strlit("/usr/share/pixmaps/");
    reveal_strlit("/var/lib/flatpak/exports/share/icons/hicolor/128x128/apps/");
    reveal_strlit("/var/lib/flatpak/exports/share/icons/hicolor/64x64/apps/");
    reveal_strlit("/var/lib/flatpak/exports/share/icons/hicolor/scalable/apps/");
    reveal_strlit(".svg");
    reveal_strlit(".png");
    let lit0 = "/.local/share/icons/hicolor/128x128/apps/"@;
    let lit1 = "/.local/share/icons/hicolor/64x64/apps/"@;
    let lit2 = "/.local/share/icons/hicolor/scalable/apps/"@;
    let lit3 = "/usr/share/icons/hicolor/128x128/apps/"@;
    let lit4 = "/usr/share/icons/hicolor/256x256/apps/"@;
    let lit5 = "/usr/share/icons/hicolor/48x48/apps/"@;
    let lit6 = "/usr/share/icons/hicolor/64x64/apps/"@;
    let lit7 = "/usr/share/icons/hicolor/scalable/apps/"@;
    let lit8 = "/usr/share/pixmaps/"@;
    let lit9 = "/var/lib/flatpak/exports/share/icons/hicolor/128x128/apps/"@;
    let lit10 = "/var/lib/flatpak/exports/share/icons/hicolor/64x64/apps/"@;
    let lit11 = "/var/lib/flatpak/exports/share/icons/hicolor/scalable/apps/"@;
    let svg = ".svg"@;
    let png = ".png"@;
    assert(svg.len() == 4 && png.len() == 4 && svg[1] != png[1]);
    let c = icon_candidates(name, home);
    assert(c[0] == lit7 + name + svg);
    assert(c[1] == lit3 + name + png);
    assert(c[2] == lit6 + name + png);
    assert(c[3] == lit5 + name + png);
    assert(c[4] == lit4 + name + png);
    assert(c[5] == lit8 + name + png);
    assert(c[6] == lit8 + name + svg);
    assert(c[7] == lit11 + name + svg);
    assert(c[8] == lit9 + name + png);
    assert(c[9] == lit10 + name + png);
    lemma_framed_distinct(lit7, svg, lit3, png, name);
    lemma_framed_distinct(lit7, svg, lit6, png, name);
    lemma_framed_distinct(lit7, svg, lit5, png, name);
    lemma_framed_distinct(lit7, svg, lit4, png, name);
    lemma_framed_distinct(lit7, svg, lit8, png, name);
    assert(lit7.len() != lit8.len());
    lemma_framed_distinct(lit7, svg, lit8, svg, name);
    assert(lit7.len() != lit11.len());
    lemma_framed_distinct(lit7, svg, lit11, svg, name);
    lemma_framed_distinct(lit7, svg, lit9, png, name);
    lemma_framed_distinct(lit7, svg, lit10, png, name);
    assert(lit3.len() != lit6.len());
    lemma_framed_distinct(lit3, png, lit6, png, name);
    assert(lit3.len() != lit5.len());
    lemma_framed_distinct(lit3, png, lit5, png, name);
    assert(lit3[25] != lit4[25]);
    lemma_framed_distinct(lit3, png, lit4, png, name);
    assert(lit3.len() != lit8.len());
    lemma_framed_distinct(lit3, png, lit8, png, name);
    lemma_framed_distinct(lit3, png, lit8, svg, name);
    lemma_framed_distinct(lit3, png, lit11, svg, name);
    assert(lit3.len() != lit9.len());
    lemma_framed_distinct(lit3, png, lit9, png, name);
    assert(lit3.len() != lit10.len());
    lemma_framed_distinct(lit3, png, lit10, png, name);
    assert(lit6[25] != lit5[25]);
    lemma_framed_distinct(lit6, png, lit5, png, name);
    assert(lit6.len() != lit4.len());
    lemma_framed_distinct(lit6, png, lit4, png, name);
    assert(lit6.len() != lit8.len());
    lemma_framed_distinct(lit6, png, lit8, png, name);
    lemma_framed_distinct(lit6, png, lit8, svg, name);
    lemma_framed_distinct(lit6, png, lit11, svg, name);
    assert(lit6.len() != lit9.len());
    lemma_framed_distinct(lit6, png, lit9, png, name);
    assert(lit6.len() != lit10.len());
    lemma_framed_distinct(lit6, png, lit10, png, name);
    assert(lit5.len() != lit4.len());
    lemma_framed_distinct(lit5, png, lit4, png, name);
    assert(lit5.len() != lit8.len());
    lemma_framed_distinct(lit5, png, lit8, png, name);
    lemma_framed_distinct(lit5, png, lit8, svg, name);
    lemma_framed_distinct(lit5, png, lit11, svg, name);
    assert(lit5.len() != lit9.len());
    lemma_framed_distinct(lit5, png, lit9, png, name);
    assert(lit5.len() != lit10.len());
    lemma_framed_distinct(lit5, png, lit10, png, name);
    assert(lit4.len() != lit8.len());
    lemma_framed_distinct(lit4, png, lit8, png, name);
    lemma_framed_distinct(lit4, png, lit8, svg, name);
    lemma_framed_distinct(lit4, png, lit11, svg, name);
    assert(lit4.len() != lit9.len());
    lemma_framed_distinct(lit4, png, lit9, png, name);
    assert(lit4.len() != lit10.len());
    lemma_framed_distinct(lit4, png, lit10, png, name);
    lemma_framed_distinct(lit8, png, lit8, svg, name);
    lemma_framed_distinct(lit8, png, lit11, svg, name);
    assert(lit8.len() != lit9.len());
    lemma_framed_distinct(lit8, png, lit9, png, name);
    assert(lit8.len() != lit10.len());
    lemma_framed_distinct(lit8, png, lit10, png, name);
    assert(lit8.len() != lit11.len());
    lemma_framed_distinct(lit8, svg, lit11, svg, name);
    lemma_framed_distinct(lit8, svg, lit9, png, name);
    lemma_framed_distinct(lit8, svg, lit10, png, name);
    lemma_framed_distinct(lit11, svg, lit9, png, name);
    lemma_framed_distinct(lit11, svg, lit10, png, name);
    assert(lit9.len() != lit10.len());
    lemma_framed_distinct(lit9, png, lit10, png, name);
    match home {
        Some(h) => {
    assert(c[10] == h + lit2 + name + svg);
    assert(c[11] == h + lit0 + name + png);
    assert(c[12] == h + lit1 + name + png);
    assert((h + lit2).len() > lit7.len());
    lemma_framed_distinct(lit7, svg, h + lit2, svg, name);
    lemma_framed_distinct(lit7, svg, h + lit0, png, name);
    lemma_framed_distinct(lit7, svg, h + lit1, png, name);
    lemma_framed_distinct(lit3, png, h + lit2, svg, name);
    assert((h + lit0).len() > lit3.len());
    lemma_framed_distinct(lit3, png, h + lit0, png, name);
    assert((h + lit1).len() > lit3.len());
    lemma_framed_distinct(lit3, png, h + lit1, png, name);
    lemma_framed_distinct(lit6, png, h + lit2, svg, name);
    assert((h + lit0).len() > lit6.len());
    lemma_framed_distinct(lit6, png, h + lit0, png, name);
    assert((h + lit1).len() > lit6.len());
    lemma_framed_distinct(lit6, png, h + lit1, png, name);
    lemma_framed_distinct(lit5, png, h + lit2, svg, name);
    assert((h + lit0).len() > lit5.len());
    lemma_framed_distinct(lit5, png, h + lit0, png, name);
    assert((h + lit1).len() > lit5.len());
    lemma_framed_distinct(lit5, png, h + lit1, png, name);
    lemma_framed_distinct(lit4, png, h + lit2, svg, name);
    assert((h + lit0).len() > lit4.len());
    lemma_framed_distinct(lit4, png, h + lit0, png, name);
    assert((h + lit1).len() > lit4.len());
    lemma_framed_distinct(lit4, png, h + lit1, png, name);
    lemma_framed_distinct(lit8, png, h + lit2, svg, name);
    assert((h + lit0).len() > lit8.len());
    lemma_framed_distinct(lit8, png, h + lit0, png, name);
    assert((h + lit1).len() > lit8.len());
    lemma_framed_distinct(lit8, png, h + lit1, png, name);
    assert((h + lit2).len() > lit8.len());
    lemma_framed_distinct(lit8, svg, h + lit2, svg, name);
    lemma_framed_distinct(lit8, svg, h + lit0, png, name);
    lemma_framed_distinct(lit8, svg, h + lit1, png, name);
    assert(lit11[17] != lit2[0]);
    lemma_no_home_prefix(h, lit2, lit11, 0);
    lemma_framed_distinct(lit11, svg, h + lit2, svg, name);
    lemma_framed_distinct(lit11, svg, h + lit0, png, name);
    lemma_framed_distinct(lit11, svg, h + lit1, png, name);
    lemma_framed_distinct(lit9, png, h + lit2, svg, name);
    assert(lit9[17] != lit0[0]);
    lemma_no_home_prefix(h, lit0, lit9, 0);
    lemma_framed_distinct(lit9, png, h + lit0, png, name);
    assert(lit9[19] != lit1[0]);
    lemma_no_home_prefix(h, lit1, lit9, 0);
    lemma_framed_distinct(lit9, png, h + lit1, png, name);
    lemma_framed_distinct(lit10, png, h + lit2, svg, name);
    assert(lit10[15] != lit0[0]);
    lemma_no_home_prefix(h, lit0, lit10, 0);
    lemma_framed_distinct(lit10, png, h + lit0, png, name);
    assert(lit10[17] != lit1[0]);
    lemma_no_home_prefix(h, lit1, lit10, 0);
    lemma_framed_distinct(lit10, png, h + lit1, png, name);
    lemma_framed_distinct(h + lit2, svg, h + lit0, png, name);
    lemma_framed_distinct(h + lit2, svg, h + lit1, png, name);
    assert((h + lit0).len() != (h + lit1).len());
    lemma_framed_distinct(h + lit0, png, h + lit1, png, name);
        },
        None => {},
    }
    assert forall|i: int, j: int| 0 <= i < j < c.len() implies c[i] != c[j] by {
        assert(i == 0 || i == 1 || i == 2 || i == 3 || i == 4 || i == 5 || i == 6 || i == 7 || i
            == 8 || i == 9 || i == 10 || i == 11);
        assert(j == 1 || j == 2 || j == 3 || j == 4 || j == 5 || j == 6 || j == 7 || j == 8 || j
            == 9 || j == 10 || j == 11 || j == 12);
    }
}


} // verus!
