//! The notification history and the reader of `dbus-monitor` output that
//! feeds it.

use vstd::prelude::*;

use crate::auth::{is_ascii_alphanumeric, random_token};
use crate::commands::CommandLine;
use crate::models::Notification;
use crate::text::{
    contains, lemma_first_index_skip, law_replace_absent, chars_of, find_char, first_index, last_index, replace_text, replaced, rfind_char,
    starts_with, string_of, text_eq, text_starts_with, trim, trimmed,
};

verus! {

/// The most notifications the history keeps.
pub const MAX_NOTIFICATIONS: usize = 20;

/// The notification history, newest first, never longer than
/// `MAX_NOTIFICATIONS`.
pub struct NotificationLog {
    entries: Vec<Notification>,
}

/// The history after `n` arrives: `n` first, then the older entries, cut
/// to `MAX_NOTIFICATIONS`.
pub open spec fn with_new(old: Seq<Notification>, n: Notification) -> Seq<Notification> {
    let all = seq![n] + old;
    if all.len() > MAX_NOTIFICATIONS {
        all.take(MAX_NOTIFICATIONS as int)
    } else {
        all
    }
}

/// The history without the entries whose id is `id`.
pub open spec fn without_id(old: Seq<Notification>, id: Seq<char>) -> Seq<Notification> {
    old.filter(other_id(id))
}

/// Whether a notification's id is other than `id`.
pub open spec fn other_id(id: Seq<char>) -> spec_fn(Notification) -> bool {
    |n: Notification| n.id@ != id
}

/// The command that clears the notification daemon's own list.
pub open spec fn clear_daemon_command() -> (Seq<char>, Seq<Seq<char>>) {
    ("swaync-client"@, seq!["-C"@])
}

impl View for NotificationLog {
    type V = Seq<Notification>;

    closed spec fn view(&self) -> Seq<Notification> {
        self.entries@
    }
}

impl NotificationLog {
    #[verifier::type_invariant]
    spec fn bounded(self) -> bool {
        self.entries.len() <= MAX_NOTIFICATIONS
    }

    /// An empty history.
    pub fn new() -> (r: NotificationLog)
        ensures
            r@ == Seq::<Notification>::empty(),
    {
        NotificationLog { entries: Vec::new() }
    }

    /// How many notifications the history holds.
    pub fn len(&self) -> (r: usize)
        ensures
            r == self@.len(),
            r <= MAX_NOTIFICATIONS,
    {
        proof {
            use_type_invariant(self);
        }
        self.entries.len()
    }

    /// A copy of the history, newest first.
    pub fn snapshot(&self) -> (r: Vec<Notification>)
        ensures
            r@ == self@,
            r@.len() <= MAX_NOTIFICATIONS,
    {
        proof {
            use_type_invariant(self);
        }
        let mut out: Vec<Notification> = Vec::new();
        let mut i: usize = 0;
        while i < self.entries.len()
            invariant
                i <= self.entries@.len(),
                out@ =~= self.entries@.take(i as int),
            decreases self.entries.len() - i,
        {
            out.push(self.entries[i].duplicate());
            i = i + 1;
        }
        out
    }

    /// Adds `n` as the newest notification, dropping the oldest one when
    /// the history would grow past `MAX_NOTIFICATIONS`.
    pub fn record(&mut self, n: Notification)
        ensures
            final(self)@ == with_new(old(self)@, n),
            final(self)@.len() <= MAX_NOTIFICATIONS,
    {
        proof {
            use_type_invariant(&*self);
        }
        let mut entries: Vec<Notification> = Vec::new();
        std::mem::swap(&mut entries, &mut self.entries);
        let ghost before = entries@;
        entries.insert(0, n);
        assert(entries@ =~= seq![n] + before);
        if entries.len() > MAX_NOTIFICATIONS {
            entries.pop();
            assert(entries@ =~= (seq![n] + before).take(MAX_NOTIFICATIONS as int));
        }
        self.entries = entries;
    }

    /// Adds a notification with a fresh random id of eight ASCII letters
    /// and digits.
    pub fn record_notification(&mut self, app_name: String, summary: String, body: String)
        ensures
            final(self)@.len() > 0,
            final(self)@[0].app_name == app_name,
            final(self)@[0].summary == summary,
            final(self)@[0].body == body,
            final(self)@[0].id@.len() == 8,
            forall|i: int| 0 <= i < 8 ==> is_ascii_alphanumeric(#[trigger] final(self)@[0].id@[i]),
            final(self)@ == with_new(old(self)@, final(self)@[0]),
    {
        let id = random_token(8);
        let n = Notification { id, app_name, summary, body };
        self.record(n);
    }

    /// Empties the history.
    pub fn clear(&mut self)
        ensures
            final(self)@ == Seq::<Notification>::empty(),
    {
        self.entries = Vec::new();
    }

    /// Drops every notification whose id is `id`, keeping the others in
    /// their order.
    pub fn remove_id(&mut self, id: &str)
        ensures
            final(self)@ == without_id(old(self)@, id@),
            final(self)@.len() <= MAX_NOTIFICATIONS,
    {
        proof {
            use_type_invariant(&*self);
        }
        let mut old_entries: Vec<Notification> = Vec::new();
        std::mem::swap(&mut old_entries, &mut self.entries);
        let ghost pred = other_id(id@);
        let mut kept: Vec<Notification> = Vec::new();
        let mut i: usize = 0;
        while i < old_entries.len()
            invariant
                i <= old_entries@.len(),
                old_entries@.len() <= MAX_NOTIFICATIONS,
                pred == other_id(id@),
                kept@ == old_entries@.take(i as int).filter(pred),
                kept@.len() <= i,
            decreases old_entries.len() - i,
        {
            let e = old_entries[i].duplicate();
            proof {
                reveal_with_fuel(Seq::<_>::filter, 1);
                assert(old_entries@.take(i + 1).drop_last() =~= old_entries@.take(i as int));
            }
            if !text_eq(e.id.as_str(), id) {
                kept.push(e);
            }
            i = i + 1;
        }
        assert(old_entries@.take(old_entries@.len() as int) =~= old_entries@);
        self.entries = kept;
    }

    /// Carries out a request on the history: `clear` empties it and asks
    /// for the notification daemon's own list to be cleared too (the
    /// command returned); `clear_one` with an id drops the notifications
    /// with that id; anything else changes nothing.
    pub fn apply_action(&mut self, action: &str, id: Option<&str>) -> (r: Option<CommandLine>)
        ensures
            action@ == "clear"@ ==> final(self)@ == Seq::<Notification>::empty(),
            action@ == "clear"@ ==> (r matches Some(c) && c@ == clear_daemon_command()),
            action@ != "clear"@ ==> r is None,
            action@ == "clear_one"@ && id is Some ==> final(self)@ == without_id(
                old(self)@,
                id->0@,
            ),
            action@ != "clear"@ && !(action@ == "clear_one"@ && id is Some) ==> final(self)@
                == old(self)@,
    {
        proof {
            reveal_strlit("clear");
            reveal_strlit("clear_one");
            assert("clear"@ != "clear_one"@) by {
                assert("clear"@.len() != "clear_one"@.len());
            }
        }
        if text_eq(action, "clear") {
            self.clear();
            let args: Vec<String> = vec!["-C".to_owned()];
            let c = CommandLine { program: "swaync-client".to_owned(), args };
            assert(c@.1 =~= seq!["-C"@]);
            Some(c)
        } else {
            if text_eq(action, "clear_one") {
                if let Some(i) = id {
                    self.remove_id(i);
                }
            }
            None
        }
    }
}

/// The text of a `dbus-monitor` string argument with its escaped newlines
/// turned into newlines and its bold and italic tags removed.
pub open spec fn cleaned(s: Seq<char>) -> Seq<char> {
    replaced(
        replaced(
            replaced(replaced(replaced(s, "\\n"@, "\n"@), "<b>"@, ""@), "</b>"@, ""@),
            "<i>"@,
            ""@,
        ),
        "</i>"@,
        ""@,
    )
}

/// The argument of a `dbus-monitor` string line: what stands between its
/// first and its last double quote, cleaned; empty where there are not two
/// quotes.
pub open spec fn string_argument(line: Seq<char>) -> Seq<char> {
    match (first_index(line, '"'), last_index(line, '"')) {
        (Some(a), Some(b)) => if a != b {
            cleaned(line.subrange(a + 1, b))
        } else {
            Seq::empty()
        },
        _ => Seq::empty(),
    }
}

/// What the reader of `dbus-monitor` output remembers: how many string
/// arguments of the current call it has seen (five standing for five or
/// more), and the application name, summary and body read so far.
pub struct MonitorView {
    pub strings_seen: nat,
    pub app_name: Seq<char>,
    pub summary: Seq<char>,
    pub body: Seq<char>,
}

/// One line of `dbus-monitor` output read: the new reader state, and the
/// application name, summary and body of a notification where the line
/// completes one. A `method call` line starts a new call; a `string "`
/// line is the next argument, and the first, third and fourth are the
/// application name, summary and body, the fourth completing the
/// notification; other lines change nothing.
pub open spec fn monitor_step(v: MonitorView, raw: Seq<char>) -> (
    MonitorView,
    Option<(Seq<char>, Seq<char>, Seq<char>)>,
) {
    let line = trim(raw);
    if starts_with(line, "method call"@) {
        (MonitorView { strings_seen: 0, app_name: Seq::empty(), summary: Seq::empty(), body: Seq::empty() }, None)
    } else if starts_with(line, "string \""@) {
        let n: nat = if v.strings_seen < 5 {
            v.strings_seen + 1
        } else {
            5
        };
        let c = string_argument(line);
        if n == 1 {
            (MonitorView { strings_seen: n, app_name: c, ..v }, None)
        } else if n == 3 {
            (MonitorView { strings_seen: n, summary: c, ..v }, None)
        } else if n == 4 {
            (MonitorView { strings_seen: n, body: c, ..v }, Some((v.app_name, v.summary, c)))
        } else {
            (MonitorView { strings_seen: n, ..v }, None)
        }
    } else {
        (v, None)
    }
}

/// Reads `dbus-monitor` output line by line and yields each notification
/// that the desktop's notification daemon receives.
pub struct MonitorReader {
    strings_seen: u8,
    app_name: String,
    summary: String,
    body: String,
}

impl View for MonitorReader {
    type V = MonitorView;

    closed spec fn view(&self) -> MonitorView {
        MonitorView {
            strings_seen: self.strings_seen as nat,
            app_name: self.app_name@,
            summary: self.summary@,
            body: self.body@,
        }
    }
}

/// The argument of a trimmed `dbus-monitor` string line.
pub fn read_string_argument(line: &str) -> (r: String)
    ensures
        r@ == string_argument(line@),
{
    let cs = chars_of(line);
    let fa = find_char(cs.as_slice(), '"');
    let fb = rfind_char(cs.as_slice(), '"');
    proof {
        lemma_first_before_last(line@, '"');
    }
    if fa.is_none() || fb.is_none() {
        return String::new();
    }
    let a = fa.unwrap();
    let b = fb.unwrap();
    if a == b {
        return String::new();
    }
    assert(a < b < cs@.len());
    let mut inner: Vec<char> = Vec::new();
    let mut i: usize = a + 1;
    while i < b
        invariant
            a < b < cs@.len(),
            a + 1 <= i <= b,
            inner@ =~= cs@.subrange(a + 1, i as int),
        decreases b - i,
    {
        inner.push(cs[i]);
        i = i + 1;
    }
    let t = string_of(inner.as_slice());
    proof {
        reveal_strlit("\\n");
        reveal_strlit("<b>");
        reveal_strlit("</b>");
        reveal_strlit("<i>");
        reveal_strlit("</i>");
    }
    let t = replace_text(t.as_str(), "\\n", "\n");
    let t = replace_text(t.as_str(), "<b>", "");
    let t = replace_text(t.as_str(), "</b>", "");
    let t = replace_text(t.as_str(), "<i>", "");
    replace_text(t.as_str(), "</i>", "")
}

proof fn lemma_first_before_last(s: Seq<char>, c: char)
    ensures
        first_index(s, c) is Some <==> last_index(s, c) is Some,
        first_index(s, c) is Some ==> 0 <= first_index(s, c)->0 <= last_index(s, c)->0 < s.len(),
    decreases s.len(),
{
    if s.len() > 0 {
        lemma_first_before_last(s.drop_first(), c);
        lemma_first_before_last(s.drop_last(), c);
        lemma_last_of_tail(s, c);
    }
}

proof fn lemma_last_of_tail(s: Seq<char>, c: char)
    requires
        s.len() > 0,
    ensures
        last_index(s, c) == (match last_index(s.drop_first(), c) {
            Some(k) => Some(k + 1),
            None => if s[0] == c {
                Some(0int)
            } else {
                None
            },
        }),
    decreases s.len(),
{
    assert(s.drop_first().len() == 0 || s.drop_first().last() == s.last());
    if s.len() > 1 {
        assert(s.drop_last().drop_first() =~= s.drop_first().drop_last());
        assert(s.drop_last()[0] == s[0]);
        if s.last() != c {
            lemma_last_of_tail(s.drop_last(), c);
            assert(last_index(s, c) == last_index(s.drop_last(), c));
            assert(last_index(s.drop_first(), c) == last_index(s.drop_first().drop_last(), c));
        } else {
            assert(last_index(s.drop_first(), c) == Some(s.drop_first().len() - 1));
        }
    } else {
        assert(s.last() == s[0]);
        assert(s.drop_last().len() == 0);
    }
}

impl MonitorReader {
    #[verifier::type_invariant]
    spec fn counted(self) -> bool {
        self.strings_seen <= 5
    }

    /// A reader that has seen nothing yet.
    pub fn new() -> (r: MonitorReader)
        ensures
            r@ == (MonitorView { strings_seen: 0, app_name: Seq::empty(), summary: Seq::empty(), body: Seq::empty() }),
    {
        MonitorReader {
            strings_seen: 0,
            app_name: String::new(),
            summary: String::new(),
            body: String::new(),
        }
    }

    /// Reads one line of `dbus-monitor` output; yields the application
    /// name, summary and body of the notification that the line completes.
    pub fn feed_line(&mut self, raw: &str) -> (r: Option<(String, String, String)>)
        ensures
            final(self)@ == monitor_step(old(self)@, raw@).0,
            (match r {
                Some((a, s, b)) => Some((a@, s@, b@)),
                None => None,
            }) == monitor_step(old(self)@, raw@).1,
    {
        proof {
            use_type_invariant(&*self);
        }
        let line = trimmed(raw);
        if text_starts_with(line.as_str(), "method call") {
            self.strings_seen = 0;
            self.app_name = String::new();
            self.summary = String::new();
            self.body = String::new();
            None
        } else if text_starts_with(line.as_str(), "string \"") {
            if self.strings_seen < 5 {
                self.strings_seen = self.strings_seen + 1;
            }
            let content = read_string_argument(line.as_str());
            if self.strings_seen == 1 {
                self.app_name = content;
                None
            } else if self.strings_seen == 3 {
                self.summary = content;
                None
            } else if self.strings_seen == 4 {
                self.body = content;
                Some((self.app_name.clone(), self.summary.clone(), self.body.clone()))
            } else {
                None
            }
        } else {
            None
        }
    }
}

/// Law: the newest notification comes first, the older ones follow in
/// their order, and the history never exceeds `MAX_NOTIFICATIONS`.
pub proof fn law_newest_first(old: Seq<Notification>, n: Notification)
    ensures
        with_new(old, n)[0] == n,
        with_new(old, n).len() <= MAX_NOTIFICATIONS,
        old.len() < MAX_NOTIFICATIONS ==> with_new(old, n).skip(1) == old,
        old.len() >= MAX_NOTIFICATIONS ==> with_new(old, n).skip(1) == old.take(
            MAX_NOTIFICATIONS - 1,
        ),
{
    let all = seq![n] + old;
    assert(all[0] == n);
    if old.len() < MAX_NOTIFICATIONS {
        assert(all.skip(1) =~= old);
    } else {
        assert(all.take(MAX_NOTIFICATIONS as int).skip(1) =~= old.take(MAX_NOTIFICATIONS - 1));
    }
}

/// Law: after the notifications with an id are dropped, none with that id
/// is left, and every other one is kept.
pub proof fn law_removed_id_gone(old: Seq<Notification>, id: Seq<char>)
    ensures
        forall|k: int|
            0 <= k < without_id(old, id).len() ==> (#[trigger] without_id(old, id)[k]).id@ != id,
        forall|k: int|
            0 <= k < old.len() && (#[trigger] old[k]).id@ != id ==> without_id(old, id).contains(
                old[k],
            ),
{
    let pred = other_id(id);
    assert forall|k: int| 0 <= k < without_id(old, id).len() implies (#[trigger] without_id(
        old,
        id,
    )[k]).id@ != id by {
        old.lemma_filter_pred(pred, k);
    }
    assert forall|k: int| 0 <= k < old.len() && (#[trigger] old[k]).id@ != id implies without_id(
        old,
        id,
    ).contains(old[k]) by {
        old.lemma_filter_contains(pred, k);
    }
}

/// Law: dropping an id that no notification carries changes nothing.
pub proof fn law_absent_id_keeps_history(old: Seq<Notification>, id: Seq<char>)
    requires
        forall|k: int| 0 <= k < old.len() ==> (#[trigger] old[k]).id@ != id,
    ensures
        without_id(old, id) == old,
    decreases old.len(),
{
    reveal_with_fuel(Seq::<_>::filter, 1);
    if old.len() > 0 {
        law_absent_id_keeps_history(old.drop_last(), id);
        assert(old.drop_last().push(old.last()) =~= old);
    } else {
        assert(old.filter(other_id(id)) =~= old);
    }
}

/// Law: after a `method call` line, the fourth string argument completes a
/// notification made of the first, third and fourth arguments, and the
/// first three arguments complete none.
pub proof fn law_fourth_string_completes(
    v: MonitorView,
    call: Seq<char>,
    l1: Seq<char>,
    l2: Seq<char>,
    l3: Seq<char>,
    l4: Seq<char>,
)
    requires
        starts_with(trim(call), "method call"@),
        starts_with(trim(l1), "string \""@),
        starts_with(trim(l2), "string \""@),
        starts_with(trim(l3), "string \""@),
        starts_with(trim(l4), "string \""@),
    ensures
        ({
            let (v0, e0) = monitor_step(v, call);
            let (v1, e1) = monitor_step(v0, l1);
            let (v2, e2) = monitor_step(v1, l2);
            let (v3, e3) = monitor_step(v2, l3);
            let (v4, e4) = monitor_step(v3, l4);
            &&& e0 is None && e1 is None && e2 is None && e3 is None
            &&& e4 == Some(
                (
                    string_argument(trim(l1)),
                    string_argument(trim(l3)),
                    string_argument(trim(l4)),
                ),
            )
        }),
{
    reveal_strlit("method call");
    reveal_strlit("string \"");
    assert forall|l: Seq<char>| starts_with(trim(l), "string \""@) implies !starts_with(
        trim(l),
        "method call"@,
    ) by {
        assert(trim(l).subrange(0, 8)[0] == 's');
        if starts_with(trim(l), "method call"@) {
            assert(trim(l).subrange(0, 11)[0] == 'm');
        }
    }
}

/// Law: the argument of a line `string "t"` is the whole of `t`, cleaned,
/// whatever double quotes `t` itself holds: it runs from the first to the
/// last quote of the line.
pub proof fn law_argument_spans_to_last_quote(t: Seq<char>)
    ensures
        string_argument("string \""@ + t + "\""@) == cleaned(t),
{
    reveal_strlit("string \"");
    reveal_strlit("\"");
    let line = "string \""@ + t + "\""@;
    assert(line.len() == t.len() + 9);
    assert forall|j: int| 0 <= j < 7 implies line[j] != '"' by {
        assert(line[j] == "string \""@[j]);
    }
    assert(line[7] == '"');
    lemma_first_index_skip(line, '"', 7);
    assert(line.skip(7)[0] == '"');
    assert(first_index(line.skip(7), '"') == Some(0int));
    assert(first_index(line, '"') == Some(7int));
    assert(line.last() == '"');
    assert(last_index(line, '"') == Some(line.len() - 1));
    assert(line.subrange(8, line.len() - 1) =~= t);
}

/// Law: text without escaped newlines and without bold or italic tags is
/// left as it is by the cleaning, so the argument of `string "t"` is
/// exactly `t`.
pub proof fn law_plain_argument_kept(t: Seq<char>)
    requires
        !contains(t, "\\n"@),
        !contains(t, "<b>"@),
        !contains(t, "</b>"@),
        !contains(t, "<i>"@),
        !contains(t, "</i>"@),
    ensures
        string_argument("string \""@ + t + "\""@) == t,
{
    law_argument_spans_to_last_quote(t);
    reveal_strlit("\\n");
    reveal_strlit("<b>");
    reveal_strlit("</b>");
    reveal_strlit("<i>");
    reveal_strlit("</i>");
    law_replace_absent(t, "\\n"@, "\n"@);
    law_replace_absent(t, "<b>"@, ""@);
    law_replace_absent(t, "</b>"@, ""@);
    law_replace_absent(t, "<i>"@, ""@);
    law_replace_absent(t, "</i>"@, ""@);
}

} // verus!
