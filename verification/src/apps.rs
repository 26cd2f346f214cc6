//! The catalogue of installed applications, read from desktop entries.

use vstd::prelude::*;

use crate::models::SystemApp;
use crate::text::{
    chars_of, first_word, first_word_chars, has_prefix, lines, lines_of, starts_with, string_of,
};

verus! {

/// An application as its name, command and icon.
pub type AppView = (Seq<char>, Seq<char>, Seq<char>);

impl View for SystemApp {
    type V = AppView;

    open spec fn view(&self) -> AppView {
        (self.name@, self.command@, self.icon@)
    }
}

/// The views of a list of applications.
pub open spec fn app_views(v: Seq<SystemApp>) -> Seq<AppView> {
    v.map_values(|a: SystemApp| a@)
}

/// The keys of a desktop entry that the catalogue reads, as read so far.
pub struct EntryFields {
    pub name: Seq<char>,
    pub command: Seq<char>,
    pub icon: Seq<char>,
    pub no_display: bool,
}

/// One line of a desktop entry read: the first non-empty `Name=`, the
/// first word of the first non-empty `Exec=` and the first non-empty
/// `Icon=` are kept, and a `NoDisplay=true` line hides the entry.
pub open spec fn entry_step(f: EntryFields, line: Seq<char>) -> EntryFields {
    if starts_with(line, "Name="@) && f.name.len() == 0 {
        EntryFields { name: line.skip(5), ..f }
    } else if starts_with(line, "Exec="@) && f.command.len() == 0 {
        EntryFields {
            command: match first_word(line.skip(5)) {
                Some(w) => w,
                None => Seq::empty(),
            },
            ..f
        }
    } else if starts_with(line, "Icon="@) && f.icon.len() == 0 {
        EntryFields { icon: line.skip(5), ..f }
    } else if starts_with(line, "NoDisplay=true"@) {
        EntryFields { no_display: true, ..f }
    } else {
        f
    }
}

/// The fields read from the lines `ls`, in order.
pub open spec fn entry_fields(ls: Seq<Seq<char>>) -> EntryFields
    decreases ls.len(),
{
    if ls.len() == 0 {
        EntryFields { name: Seq::empty(), command: Seq::empty(), icon: Seq::empty(), no_display: false }
    } else {
        entry_step(entry_fields(ls.drop_last()), ls.last())
    }
}

/// The application a desktop entry describes: there is one where the entry
/// has a name and a command and is not hidden.
pub open spec fn desktop_entry(content: Seq<char>) -> Option<AppView> {
    let f = entry_fields(lines(content));
    if f.name.len() > 0 && f.command.len() > 0 && !f.no_display {
        Some((f.name, f.command, f.icon))
    } else {
        None
    }
}

fn copy_from(line: &Vec<char>, start: usize) -> (r: Vec<char>)
    requires
        start <= line@.len(),
    ensures
        r@ == line@.skip(start as int),
{
    let mut out: Vec<char> = Vec::new();
    let mut i: usize = start;
    while i < line.len()
        invariant
            start <= i <= line@.len(),
            out@ =~= line@.subrange(start as int, i as int),
        decreases line.len() - i,
    {
        out.push(line[i]);
        i = i + 1;
    }
    out
}

/// Reads the application a desktop entry describes.
pub fn parse_desktop_entry(content: &str) -> (r: Option<SystemApp>)
    ensures
        match r {
            Some(a) => desktop_entry(content@) == Some(a@),
            None => desktop_entry(content@) is None,
        },
{
    let cs = chars_of(content);
    let ls = lines_of(cs.as_slice());
    let ghost gl = lines(content@);
    let name_key = chars_of("Name=");
    let exec_key = chars_of("Exec=");
    let icon_key = chars_of("Icon=");
    let hidden_key = chars_of("NoDisplay=true");
    proof {
        reveal_strlit("Name=");
        reveal_strlit("Exec=");
        reveal_strlit("Icon=");
    }
    let mut name: Vec<char> = Vec::new();
    let mut exec: Vec<char> = Vec::new();
    let mut icon: Vec<char> = Vec::new();
    let mut no_display = false;
    let mut i: usize = 0;
    while i < ls.len()
        invariant
            ls@.len() == gl.len(),
            forall|k: int| 0 <= k < ls@.len() ==> #[trigger] ls@[k]@ == gl[k],
            i <= ls@.len(),
            name_key@ == "Name="@,
            exec_key@ == "Exec="@,
            icon_key@ == "Icon="@,
            hidden_key@ == "NoDisplay=true"@,
            "Name="@.len() == 5,
            "Exec="@.len() == 5,
            "Icon="@.len() == 5,
            entry_fields(gl.take(i as int)) == (EntryFields {
                name: name@,
                command: exec@,
                icon: icon@,
                no_display,
            }),
        decreases ls.len() - i,
    {
        let line = &ls[i];
        assert(gl.take(i + 1).drop_last() =~= gl.take(i as int));
        assert(gl.take(i + 1).last() == line@);
        if has_prefix(line.as_slice(), name_key.as_slice()) && name.len() == 0 {
            name = copy_from(line, 5);
        } else if has_prefix(line.as_slice(), exec_key.as_slice()) && exec.len() == 0 {
            let rest = copy_from(line, 5);
            exec = first_word_chars(rest.as_slice());
        } else if has_prefix(line.as_slice(), icon_key.as_slice()) && icon.len() == 0 {
            icon = copy_from(line, 5);
        } else if has_prefix(line.as_slice(), hidden_key.as_slice()) {
            no_display = true;
        }
        i = i + 1;
    }
    assert(gl.take(gl.len() as int) =~= gl);
    if name.len() > 0 && exec.len() > 0 && !no_display {
        Some(
            SystemApp {
                name: string_of(name.as_slice()),
                command: string_of(exec.as_slice()),
                icon: string_of(icon.as_slice()),
            },
        )
    } else {
        None
    }
}

/// Whether name `a` sorts before name `b`: character by character, a
/// proper prefix first. On UTF-8 text this is the order of `String`'s `Ord`,
/// since UTF-8 keeps the order of code points.
pub open spec fn name_less(a: Seq<char>, b: Seq<char>) -> bool
    decreases a.len(),
{
    if a.len() == 0 {
        b.len() > 0
    } else if b.len() == 0 {
        false
    } else if a[0] != b[0] {
        (a[0] as u32) < (b[0] as u32)
    } else {
        name_less(a.drop_first(), b.drop_first())
    }
}

proof fn lemma_name_irreflexive(a: Seq<char>)
    ensures
        !name_less(a, a),
    decreases a.len(),
{
    if a.len() > 0 {
        lemma_name_irreflexive(a.drop_first());
    }
}

proof fn lemma_name_total(a: Seq<char>, b: Seq<char>)
    ensures
        a != b ==> (name_less(a, b) || name_less(b, a)),
    decreases a.len(),
{
    if a.len() == 0 && b.len() == 0 {
        assert(a =~= b);
    } else if a.len() > 0 && b.len() > 0 && a[0] != b[0] {
        vstd::utf8::char_u32_cast(a[0], a[0] as u32);
        vstd::utf8::char_u32_cast(b[0], b[0] as u32);
    } else if a.len() > 0 && b.len() > 0 && a[0] == b[0] {
        lemma_name_total(a.drop_first(), b.drop_first());
        if a.drop_first() == b.drop_first() {
            assert(a =~= seq![a[0]] + a.drop_first());
            assert(b =~= seq![b[0]] + b.drop_first());
        }
    }
}

proof fn lemma_name_asymmetric(a: Seq<char>, b: Seq<char>)
    ensures
        !(name_less(a, b) && name_less(b, a)),
    decreases a.len(),
{
    if a.len() > 0 && b.len() > 0 && a[0] == b[0] {
        lemma_name_asymmetric(a.drop_first(), b.drop_first());
    }
}

proof fn lemma_name_transitive(a: Seq<char>, b: Seq<char>, c: Seq<char>)
    requires
        name_less(a, b),
        name_less(b, c),
    ensures
        name_less(a, c),
    decreases a.len(),
{
    if a.len() > 0 && b.len() > 0 && c.len() > 0 && a[0] == b[0] && b[0] == c[0] {
        lemma_name_transitive(a.drop_first(), b.drop_first(), c.drop_first());
    }
}

/// `name_less` is a strict total order.
pub proof fn lemma_name_order(a: Seq<char>, b: Seq<char>, c: Seq<char>)
    ensures
        !name_less(a, a),
        a != b ==> (name_less(a, b) || name_less(b, a)),
        !(name_less(a, b) && name_less(b, a)),
        name_less(a, b) && name_less(b, c) ==> name_less(a, c),
{
    lemma_name_irreflexive(a);
    lemma_name_total(a, b);
    lemma_name_asymmetric(a, b);
    if name_less(a, b) && name_less(b, c) {
        lemma_name_transitive(a, b, c);
    }
}

/// Whether the names in `r` are in strictly ascending order.
pub open spec fn strictly_sorted(r: Seq<AppView>) -> bool {
    forall|i: int, j: int| 0 <= i < j < r.len() ==> name_less(#[trigger] r[i].0, #[trigger] r[j].0)
}

/// Whether some application in `r` has the name `name`.
pub open spec fn listed(r: Seq<AppView>, name: Seq<char>) -> bool {
    exists|k: int| 0 <= k < r.len() && (#[trigger] r[k]).0 == name
}

/// Whether `x` is, in `apps`, the first application with its name.
pub open spec fn first_of_name(x: AppView, apps: Seq<AppView>) -> bool {
    exists|i: int|
        0 <= i < apps.len() && #[trigger] apps[i] == x && forall|j: int|
            0 <= j < i ==> (#[trigger] apps[j]).0 != x.0
}

/// Whether `r` is the catalogue of `apps` as sorting by name and then
/// dropping later duplicates gives it: one application per name, sorted by
/// name, each the first of `apps` with its name, and every name of `apps`
/// present.
pub open spec fn is_catalogue(r: Seq<AppView>, apps: Seq<AppView>) -> bool {
    &&& strictly_sorted(r)
    &&& forall|k: int| 0 <= k < r.len() ==> first_of_name(#[trigger] r[k], apps)
    &&& forall|i: int| 0 <= i < apps.len() ==> listed(r, (#[trigger] apps[i]).0)
}

/// The outcome of comparing two names.
pub enum NameOrder {
    Before,
    Same,
    After,
}

/// Compares two names in the catalogue's order.
pub fn compare_names(a: &[char], b: &[char]) -> (r: NameOrder)
    ensures
        r is Before <==> name_less(a@, b@),
        r is Same <==> a@ == b@,
        r is After <==> name_less(b@, a@),
{
    proof {
        lemma_name_order(a@, b@, a@);
    }
    let mut i: usize = 0;
    assert(a@.skip(0) =~= a@);
    assert(b@.skip(0) =~= b@);
    assert(a@.take(0) =~= b@.take(0));
    while i < a.len() && i < b.len() && a[i] == b[i]
        invariant
            i <= a@.len(),
            i <= b@.len(),
            a@.take(i as int) == b@.take(i as int),
            name_less(a@, b@) == name_less(a@.skip(i as int), b@.skip(i as int)),
            name_less(b@, a@) == name_less(b@.skip(i as int), a@.skip(i as int)),
        decreases a.len() - i,
    {
        assert(a@.skip(i as int).drop_first() =~= a@.skip(i + 1));
        assert(b@.skip(i as int).drop_first() =~= b@.skip(i + 1));
        assert(a@.take(i + 1) =~= a@.take(i as int).push(a@[i as int]));
        assert(b@.take(i + 1) =~= b@.take(i as int).push(b@[i as int]));
        i = i + 1;
    }
    if i == a.len() && i == b.len() {
        assert(a@ =~= a@.take(i as int));
        assert(b@ =~= b@.take(i as int));
        NameOrder::Same
    } else if i == a.len() {
        assert(a@ != b@) by {
            assert(a@.len() != b@.len());
        }
        NameOrder::Before
    } else if i == b.len() {
        assert(a@ != b@) by {
            assert(a@.len() != b@.len());
        }
        NameOrder::After
    } else {
        assert(a@ != b@) by {
            assert(a@[i as int] != b@[i as int]);
        }
        assert(a@.skip(i as int)[0] == a@[i as int]);
        assert(b@.skip(i as int)[0] == b@[i as int]);
        if (a[i] as u32) < (b[i] as u32) {
            NameOrder::Before
        } else {
            NameOrder::After
        }
    }
}

impl SystemApp {
    /// A field-for-field copy.
    pub fn duplicate(&self) -> (r: SystemApp)
        ensures
            r@ == self@,
    {
        SystemApp { name: self.name.clone(), command: self.command.clone(), icon: self.icon.clone() }
    }
}

proof fn lemma_first_of_name_extends(x: AppView, pre: Seq<AppView>, y: AppView)
    requires
        first_of_name(x, pre),
    ensures
        first_of_name(x, pre.push(y)),
{
    let i = choose|i: int|
        0 <= i < pre.len() && #[trigger] pre[i] == x && forall|j: int|
            0 <= j < i ==> (#[trigger] pre[j]).0 != x.0;
    let q = pre.push(y);
    assert(q[i] == x);
    assert forall|j: int| 0 <= j < i implies (#[trigger] q[j]).0 != x.0 by {
        assert(q[j] == pre[j]);
    }
}

proof fn lemma_skip_keeps_catalogue(ov: Seq<AppView>, pre: Seq<AppView>, x: AppView, p: int)
    requires
        is_catalogue(ov, pre),
        0 <= p < ov.len(),
        ov[p].0 == x.0,
    ensures
        is_catalogue(ov, pre.push(x)),
{
    let q = pre.push(x);
    assert forall|k: int| 0 <= k < ov.len() implies first_of_name(#[trigger] ov[k], q) by {
        lemma_first_of_name_extends(ov[k], pre, x);
    }
    assert forall|i: int| 0 <= i < q.len() implies listed(ov, (#[trigger] q[i]).0) by {
        if i < pre.len() {
            assert(q[i] == pre[i]);
        } else {
            assert(ov[p].0 == q[i].0);
        }
    }
}

proof fn lemma_insert_keeps_catalogue(ov: Seq<AppView>, pre: Seq<AppView>, x: AppView, p: int)
    requires
        is_catalogue(ov, pre),
        0 <= p <= ov.len(),
        forall|k: int| 0 <= k < p ==> name_less(#[trigger] ov[k].0, x.0),
        p < ov.len() ==> name_less(x.0, ov[p].0),
    ensures
        is_catalogue(ov.insert(p, x), pre.push(x)),
{
    let nv = ov.insert(p, x);
    let q = pre.push(x);
    assert forall|k: int| 0 <= k < ov.len() implies (#[trigger] ov[k]).0 != x.0 by {
        lemma_name_order(ov[k].0, x.0, x.0);
        if k > p {
            lemma_name_order(x.0, ov[p].0, ov[k].0);
            lemma_name_order(ov[k].0, ov[k].0, ov[k].0);
        }
        if k >= p {
            lemma_name_order(x.0, x.0, x.0);
        }
    }
    assert forall|j: int| 0 <= j < pre.len() implies (#[trigger] pre[j]).0 != x.0 by {
        assert(listed(ov, pre[j].0));
        let k = choose|k: int| 0 <= k < ov.len() && (#[trigger] ov[k]).0 == pre[j].0;
        assert(ov[k].0 != x.0);
    }
    assert(first_of_name(x, q)) by {
        assert(q[pre.len() as int] == x);
        assert forall|j: int| 0 <= j < pre.len() implies (#[trigger] q[j]).0 != x.0 by {
            assert(q[j] == pre[j]);
        }
    }
    assert forall|i: int, j: int| 0 <= i < j < nv.len() implies name_less(
        #[trigger] nv[i].0,
        #[trigger] nv[j].0,
    ) by {
        if j < p {
            assert(nv[i] == ov[i] && nv[j] == ov[j]);
        } else if j == p {
            assert(nv[i] == ov[i] && nv[j] == x);
        } else if i == p {
            assert(nv[j] == ov[j - 1]);
            if j - 1 > p {
                lemma_name_order(x.0, ov[p].0, ov[j - 1].0);
            }
        } else if i < p {
            assert(nv[i] == ov[i] && nv[j] == ov[j - 1]);
        } else {
            assert(nv[i] == ov[i - 1] && nv[j] == ov[j - 1]);
        }
    }
    assert forall|k: int| 0 <= k < nv.len() implies first_of_name(#[trigger] nv[k], q) by {
        if k < p {
            assert(nv[k] == ov[k]);
            lemma_first_of_name_extends(ov[k], pre, x);
        } else if k > p {
            assert(nv[k] == ov[k - 1]);
            lemma_first_of_name_extends(ov[k - 1], pre, x);
        }
    }
    assert forall|i: int| 0 <= i < q.len() implies listed(nv, (#[trigger] q[i]).0) by {
        if i < pre.len() {
            assert(q[i] == pre[i]);
            assert(listed(ov, pre[i].0));
            let k = choose|k: int| 0 <= k < ov.len() && (#[trigger] ov[k]).0 == pre[i].0;
            if k < p {
                assert(nv[k] == ov[k]);
            } else {
                assert(nv[k + 1] == ov[k]);
            }
        } else {
            assert(nv[p] == x);
        }
    }
}

/// Sorts applications by name and keeps, of each name, the first one: the
/// catalogue that a stable sort by name followed by dropping adjacent
/// duplicates gives.
pub fn sort_and_dedup_apps(apps: &Vec<SystemApp>) -> (r: Vec<SystemApp>)
    ensures
        is_catalogue(app_views(r@), app_views(apps@)),
{
    let ghost av = app_views(apps@);
    let mut out: Vec<SystemApp> = Vec::new();
    let mut idx: usize = 0;
    assert(app_views(out@) =~= Seq::<AppView>::empty());
    assert(av.take(0) =~= Seq::<AppView>::empty());
    while idx < apps.len()
        invariant
            idx <= apps@.len(),
            av == app_views(apps@),
            is_catalogue(app_views(out@), av.take(idx as int)),
        decreases apps.len() - idx,
    {
        let a = apps[idx].duplicate();
        let a_name = chars_of(a.name.as_str());
        let ghost ov = app_views(out@);
        assert(av.take(idx + 1) =~= av.take(idx as int).push(a@));
        let mut p: usize = 0;
        let mut same = false;
        let mut stop = false;
        while p < out.len() && !stop
            invariant
                p <= out@.len(),
                ov == app_views(out@),
                a_name@ == a@.0,
                forall|k: int| 0 <= k < p ==> name_less(#[trigger] ov[k].0, a@.0),
                stop ==> p < out@.len(),
                same ==> stop,
                stop && same ==> ov[p as int].0 == a@.0,
                stop && !same ==> name_less(a@.0, ov[p as int].0),
            decreases out.len() - p + (if stop {
                0int
            } else {
                1
            }),
        {
            let o_name = chars_of(out[p].name.as_str());
            assert(ov[p as int].0 == o_name@);
            match compare_names(o_name.as_slice(), a_name.as_slice()) {
                NameOrder::Before => {
                    p = p + 1;
                },
                NameOrder::Same => {
                    same = true;
                    stop = true;
                },
                NameOrder::After => {
                    stop = true;
                },
            }
        }
        if stop && same {
            proof {
                lemma_skip_keeps_catalogue(ov, av.take(idx as int), a@, p as int);
            }
        } else {
            proof {
                lemma_insert_keeps_catalogue(ov, av.take(idx as int), a@, p as int);
            }
            out.insert(p, a);
            assert(app_views(out@) =~= ov.insert(p as int, a@));
        }
        idx = idx + 1;
    }
    assert(av.take(apps@.len() as int) =~= av);
    out
}

/// The applications that the desktop entries `contents` describe, in
/// order, the entries that describe none skipped.
pub open spec fn parsed_entries(contents: Seq<Seq<char>>) -> Seq<AppView>
    decreases contents.len(),
{
    if contents.len() == 0 {
        Seq::empty()
    } else {
        let rest = parsed_entries(contents.drop_last());
        match desktop_entry(contents.last()) {
            Some(a) => rest.push(a),
            None => rest,
        }
    }
}

/// The views of a list of strings.
pub open spec fn string_views(v: Seq<String>) -> Seq<Seq<char>> {
    v.map_values(|s: String| s@)
}

/// The application catalogue from the contents of the desktop entry files
/// found, in the order they were found: each entry read, then sorted by
/// name with later duplicates dropped.
pub fn collect_apps(contents: &Vec<String>) -> (r: Vec<SystemApp>)
    ensures
        is_catalogue(app_views(r@), parsed_entries(string_views(contents@))),
{
    let ghost cv = string_views(contents@);
    let mut parsed: Vec<SystemApp> = Vec::new();
    let mut i: usize = 0;
    assert(cv.take(0) =~= Seq::<Seq<char>>::empty());
    assert(app_views(parsed@) =~= Seq::<AppView>::empty());
    while i < contents.len()
        invariant
            i <= contents@.len(),
            cv == string_views(contents@),
            app_views(parsed@) == parsed_entries(cv.take(i as int)),
        decreases contents.len() - i,
    {
        assert(cv.take(i + 1).drop_last() =~= cv.take(i as int));
        assert(cv.take(i + 1).last() == contents@[i as int]@);
        let ghost before = parsed@;
        match parse_desktop_entry(contents[i].as_str()) {
            Some(a) => {
                parsed.push(a);
                assert(app_views(parsed@) =~= app_views(before).push(a@));
            },
            None => {},
        }
        i = i + 1;
    }
    assert(cv.take(contents@.len() as int) =~= cv);
    sort_and_dedup_apps(&parsed)
}

/// The directories searched for desktop entries: the system-wide and
/// Flatpak ones, and the user's own where the home directory is known.
pub open spec fn application_dir_list(home: Option<Seq<char>>) -> Seq<Seq<char>> {
    let base = seq!["/usr/share/applications"@, "/var/lib/flatpak/exports/share/applications"@];
    match home {
        Some(h) => base.push(h + "/.local/share/applications"@),
        None => base,
    }
}

/// The directories searched for desktop entries.
pub fn application_dirs(home: Option<&str>) -> (r: Vec<String>)
    ensures
        string_views(r@) == application_dir_list(
            match home {
                Some(h) => Some(h@),
                None => None,
            },
        ),
{
    let mut dirs: Vec<String> = Vec::new();
    dirs.push(crate::text::owned("/usr/share/applications"));
    dirs.push(crate::text::owned("/var/lib/flatpak/exports/share/applications"));
    match home {
        Some(h) => {
            dirs.push(crate::text::join_text(h, "/.local/share/applications"));
        },
        None => {},
    }
    assert(string_views(dirs@) =~= application_dir_list(
        match home {
            Some(h) => Some(h@),
            None => None,
        },
    ));
    dirs
}

/// Law: the catalogue is sorted strictly by name, so no name appears twice.
pub proof fn law_catalogue_names_unique(r: Seq<AppView>, apps: Seq<AppView>, i: int, j: int)
    requires
        is_catalogue(r, apps),
        0 <= i < j < r.len(),
    ensures
        r[i].0 != r[j].0,
{
    lemma_name_order(r[i].0, r[j].0, r[j].0);
}

/// Law: a hidden entry (one with a `NoDisplay=true` line) never yields an
/// application.
pub proof fn law_hidden_entry_not_listed(content: Seq<char>)
    requires
        entry_fields(lines(content)).no_display,
    ensures
        desktop_entry(content) is None,
{
}

/// Law: once `NoDisplay=true` has been read, later lines keep the entry
/// hidden.
pub proof fn law_hidden_stays_hidden(f: EntryFields, line: Seq<char>)
    requires
        f.no_display,
    ensures
        entry_step(f, line).no_display,
{
}

/// Law: the catalogue holds exactly one application per name found: for
/// every application found, the catalogue lists one of the same name, and
/// that one is the first found with the name.
pub proof fn law_catalogue_first_wins(r: Seq<AppView>, apps: Seq<AppView>, i: int)
    requires
        is_catalogue(r, apps),
        0 <= i < apps.len(),
    ensures
        exists|k: int|
            0 <= k < r.len() && (#[trigger] r[k]).0 == apps[i].0 && first_of_name(r[k], apps),
{
    assert(listed(r, apps[i].0));
    let k = choose|k: int| 0 <= k < r.len() && (#[trigger] r[k]).0 == apps[i].0;
    assert(first_of_name(r[k], apps));
}

/// Law: the entries read from two runs of files, one after the other, are
/// the entries of the first run followed by those of the second.
pub proof fn law_parsed_entries_concat(xs: Seq<Seq<char>>, ys: Seq<Seq<char>>)
    ensures
        parsed_entries(xs + ys) == parsed_entries(xs) + parsed_entries(ys),
    decreases ys.len(),
{
    if ys.len() == 0 {
        assert(xs + ys =~= xs);
        assert(parsed_entries(xs) + parsed_entries(ys) =~= parsed_entries(xs));
    } else {
        law_parsed_entries_concat(xs, ys.drop_last());
        assert((xs + ys).drop_last() =~= xs + ys.drop_last());
        assert((xs + ys).last() == ys.last());
        let a = parsed_entries(xs);
        let b = parsed_entries(ys.drop_last());
        match desktop_entry(ys.last()) {
            Some(e) => {
                assert((a + b).push(e) =~= a + b.push(e));
            },
            None => {},
        }
    }
}

/// Law: one file yields exactly the application it describes, if any.
pub proof fn law_parsed_entries_one(c: Seq<char>)
    ensures
        parsed_entries(seq![c]) == (match desktop_entry(c) {
            Some(a) => seq![a],
            None => Seq::<AppView>::empty(),
        }),
{
    assert(seq![c].drop_last() =~= Seq::<Seq<char>>::empty());
    assert(parsed_entries(Seq::<Seq<char>>::empty()) == Seq::<AppView>::empty());
    assert(seq![c].last() == c);
    match desktop_entry(c) {
        Some(a) => {
            assert(Seq::<AppView>::empty().push(a) =~= seq![a]);
        },
        None => {},
    }
}

/// Law: every file found that describes an application, wherever it stands
/// among the files (the last one too), has its application's name listed
/// in the catalogue.
pub proof fn law_every_entry_listed(r: Seq<AppView>, cs: Seq<Seq<char>>, i: int, a: AppView)
    requires
        is_catalogue(r, parsed_entries(cs)),
        0 <= i < cs.len(),
        desktop_entry(cs[i]) == Some(a),
    ensures
        listed(r, a.0),
{
    let pre = cs.take(i);
    let post = cs.skip(i + 1);
    assert(cs =~= pre + seq![cs[i]] + post);
    law_parsed_entries_concat(pre + seq![cs[i]], post);
    law_parsed_entries_concat(pre, seq![cs[i]]);
    law_parsed_entries_one(cs[i]);
    let p = parsed_entries(cs);
    let k = parsed_entries(pre).len() as int;
    assert(p == parsed_entries(pre) + seq![a] + parsed_entries(post));
    assert(p[k] == a);
    assert(listed(r, (p[k]).0));
}

/// Law: a single file that describes an application gives a catalogue of
/// exactly that application.
pub proof fn law_single_entry_catalogue(r: Seq<AppView>, c: Seq<char>, a: AppView)
    requires
        desktop_entry(c) == Some(a),
        is_catalogue(r, parsed_entries(seq![c])),
    ensures
        r == seq![a],
{
    law_parsed_entries_one(c);
    let p = parsed_entries(seq![c]);
    assert(p == seq![a]);
    assert(listed(r, p[0].0));
    assert forall|k: int| 0 <= k < r.len() implies r[k] == a by {
        assert(first_of_name(r[k], p));
    }
    if r.len() >= 2 {
        lemma_name_order(r[0].0, r[0].0, r[0].0);
        assert(name_less(r[0].0, r[1].0));
        assert(r[1] == a && r[0] == a);
    }
    assert(r =~= seq![a]);
}

} // verus!
