//! How log entries are shown on a terminal: the colours, the theme of an entry,
//! and the line that shows it.

use vstd::prelude::*;
use crate::analysis::Callout;
use crate::indices::Index;
use crate::log_kind::{CharacterLog, kind_of, pronounced_display};
use crate::logs::LogEntry;
use crate::run::DataEvent;
use crate::star_map::StarMap;
use crate::text::{
    chars_of, split_whitespace, string_from_chars, str_upper, to_uppercase, trim_end_char,
    trim_end_matches_char, words, join_with,
};
use crate::time::{Timestamp, stamp_in_range, month_day_time_text};
use chrono::TimeZone;

verus! {

/// Resets the colours.
pub const CLR: &'static str = "\x1b[0m";

/// White text.
pub const WHITE: &'static str = "\x1b[37m";

/// Red text.
pub const RED: &'static str = "\x1b[31m";

/// Dark orange text.
pub const ORANGE: &'static str = "\x1b[38;2;139;69;0m";

/// White text on red.
pub const WHITE_ON_RED: &'static str = "\x1b[41;37m";

/// White text on dark orange.
pub const WHITE_ON_ORANGE: &'static str = "\x1b[37;48;2;139;69;0m";

/// Green text.
pub const GREEN: &'static str = "\x1b[32m";

/// Yellow text.
pub const YELLOW: &'static str = "\x1b[33m";

/// Bright blue text.
pub const BRIGHT_BLUE: &'static str = "\x1b[94m";

/// Magenta text.
pub const MAGENTA: &'static str = "\x1b[35m";

/// Cyan text.
pub const CYAN: &'static str = "\x1b[36m";

/// Gray text.
pub const GRAY: &'static str = "\x1b[90m";

/// The prefix of the sonar's notices.
pub const INFO: &'static str = "\x1b[36m[sonar]\x1b[0m";

/// The prefix of the sonar's errors.
pub const ERR: &'static str = "\x1b[31m[sonar]\x1b[0m";

/// The colours of an entry's line: of its stamp, its author, its focus word and
/// its content.
#[derive(Debug, Clone, Copy, PartialEq, Eq)]
pub struct LogEntryAnsiTheme {
    pub stamp_fg: &'static str,
    pub author_fg: &'static str,
    pub focus_fg: &'static str,
    pub content_fg: &'static str,
}

/// The colours of an entry's line: red for an entry in danger or a dangerous one in
/// range, orange for one in range, plain otherwise.
pub open spec fn theme_of(in_range: bool, in_danger: bool, dangerous: bool) -> (Seq<char>, Seq<char>, Seq<char>, Seq<char>) {
    if in_danger || (in_range && dangerous) {
        ("\x1b[41;37m"@, "\x1b[31m"@, "\x1b[33m"@, "\x1b[31m"@)
    } else if in_range {
        ("\x1b[37;48;2;139;69;0m"@, "\x1b[38;2;139;69;0m"@, "\x1b[33m"@, "\x1b[38;2;139;69;0m"@)
    } else {
        ("\x1b[37m"@, "\x1b[90m"@, "\x1b[94m"@, "\x1b[37m"@)
    }
}

/// An entry as shown on a terminal, with whether it is in range, in danger and
/// dangerous.
#[derive(Debug)]
pub struct LogEntryAnsi<'this, 'run> {
    pub entry: &'this LogEntry,
    pub index: &'run Index,
    pub in_range: bool,
    pub in_danger: bool,
    pub dangerous: bool,
}

impl LogEntryAnsiTheme {
    /// The colours of the line of `ansi`.
    pub fn from_entry(ansi: &LogEntryAnsi) -> (r: Self)
        ensures
            (r.stamp_fg@, r.author_fg@, r.focus_fg@, r.content_fg@) == theme_of(
                ansi.in_range,
                ansi.in_danger,
                ansi.dangerous,
            ),
    {
        if ansi.in_danger || (ansi.in_range && ansi.dangerous) {
            LogEntryAnsiTheme {
                stamp_fg: WHITE_ON_RED,
                author_fg: RED,
                focus_fg: YELLOW,
                content_fg: RED,
            }
        } else if ansi.in_range {
            LogEntryAnsiTheme {
                stamp_fg: WHITE_ON_ORANGE,
                author_fg: ORANGE,
                focus_fg: YELLOW,
                content_fg: ORANGE,
            }
        } else {
            LogEntryAnsiTheme {
                stamp_fg: WHITE,
                author_fg: GRAY,
                focus_fg: BRIGHT_BLUE,
                content_fg: WHITE,
            }
        }
    }
}

impl LogEntry {
    /// The entry as shown on a terminal.
    pub fn display_ansi<'this, 'run>(
        &'this self,
        index: &'run Index,
        in_range: bool,
        in_danger: bool,
        dangerous: bool,
    ) -> (r: LogEntryAnsi<'this, 'run>)
        ensures
            *r.entry == *self,
            *r.index == *index,
            r.in_range == in_range,
            r.in_danger == in_danger,
            r.dangerous == dangerous,
    {
        LogEntryAnsi { entry: self, index, in_range, in_danger, dangerous }
    }
}

/// Calls `chrono::Utc.timestamp_opt(secs, nanos)` and formats the instant with
/// `%m-%d %H:%M`. Trusted: chrono represents every instant that `stamp_in_range`
/// admits, and the text is `month_day_time_text` of the seconds: the month and
/// day of the proleptic Gregorian date of that UTC day, and the hour and minute
/// within it, in two digits each.
#[verifier::external_body]
fn month_day_time(ts: &Timestamp) -> (r: String)
    requires
        stamp_in_range(*ts),
    ensures
        r@ == month_day_time_text(ts.0 as int),
{
    match chrono::Utc.timestamp_opt(ts.0, ts.1).single() {
        Some(d) => d.format("%m-%d %H:%M").to_string(),
        None => String::new(),
    }
}

/// `s` padded with spaces on the right to `width` characters, as `{:<width}` does.
pub open spec fn padded(s: Seq<char>, width: nat) -> Seq<char> {
    if s.len() >= width {
        s
    } else {
        s + Seq::new((width - s.len()) as nat, |i: int| ' ')
    }
}

/// `s` padded with spaces on the right to `width` characters.
pub fn pad_right(s: &str, width: usize) -> (r: String)
    ensures
        r@ == padded(s@, width as nat),
{
    let n = chars_of(s).len();
    let mut out = s.to_owned();
    let mut k = n;
    while k < width
        invariant
            n == s@.len(),
            n <= k <= width || (n > width && k == n),
            out@ == s@ + Seq::new((k - n) as nat, |i: int| ' '),
        decreases width - k,
    {
        out.append(" ");
        proof {
            reveal_strlit(" ");
        }
        assert(out@ =~= s@ + Seq::new((k + 1 - n) as nat, |i: int| ' '));
        k = k + 1;
    }
    assert(n < width ==> out@ =~= s@ + Seq::new((width - n) as nat, |i: int| ' '));
    assert(n >= width ==> out@ =~= s@);
    out
}

/// A word of an entry's content as shown: a system it names, upper-cased (after
/// the `*` that end it are dropped), or the word as it is.
pub open spec fn phrase_of(w: Seq<char>, names: Seq<Seq<char>>) -> (bool, Seq<char>) {
    let up = str_upper(trim_end_char(w, '*'));
    if names.contains(up) {
        (true, up)
    } else {
        (false, w)
    }
}

/// The first position below `n` of a system word.
pub open spec fn first_system_below(ps: Seq<(bool, Seq<char>)>, n: int) -> Option<int>
    decreases n,
{
    if n <= 0 {
        None
    } else {
        match first_system_below(ps, n - 1) {
            Some(i) => Some(i),
            None => if ps[n - 1].0 {
                Some(n - 1)
            } else {
                None
            },
        }
    }
}

/// A word as shown: a system in the focus colour, other words as they are.
pub open spec fn shown(p: (bool, Seq<char>), focus: Seq<char>) -> Seq<char> {
    if p.0 {
        focus + p.1 + "\x1b[0m"@
    } else {
        p.1
    }
}

/// The pieces `ss` joined with single spaces.
pub open spec fn join_spaced(ss: Seq<Seq<char>>) -> Seq<char>
    decreases ss.len(),
{
    if ss.len() == 0 {
        seq![]
    } else if ss.len() == 1 {
        ss[0]
    } else {
        join_spaced(ss.drop_last()) + " "@ + ss.last()
    }
}

/// How the channel of an entry is shown: a group channel by the name at its
/// position in the channel name index, other logs by their kind.
pub open spec fn channel_shown(c: CharacterLog, index: Index) -> Seq<char> {
    match c {
        CharacterLog::Group { channel_id, .. } => index.channel_names.0@[channel_id as int].name@,
        _ => pronounced_display(kind_of(c)),
    }
}

/// Whether the line of an entry shows its channel: it names not exactly one system
/// and it is a callout.
pub open spec fn shows_channel(e: LogEntry) -> bool {
    !(e.analysis.intel matches Some(i) && i.systems@.len() == 1) && (e.analysis.callout matches Some(
        c,
    ) && c.call is Some)
}

/// The words of the entry's content as shown, with the focus word taken out of
/// them: the first system for an entry that names exactly one, the channel for a
/// callout, none otherwise.
pub open spec fn focus_and_rest(
    e: LogEntry,
    ps: Seq<(bool, Seq<char>)>,
    chan: Seq<char>,
    focus: Seq<char>,
) -> (Seq<char>, Seq<(bool, Seq<char>)>) {
    if e.analysis.intel matches Some(i) && i.systems@.len() == 1 {
        match first_system_below(ps, ps.len() as int) {
            Some(p) => (focus + ps[p].1 + "\x1b[0m"@ + " "@, ps.remove(p)),
            None => (seq![], ps),
        }
    } else if e.analysis.callout matches Some(c) && c.call is Some {
        (focus + chan + "\x1b[0m"@ + " "@, ps)
    } else {
        (seq![], ps)
    }
}

/// The line that shows an entry: its stamp, its author padded to 37 characters,
/// the focus word, and its words, each in the theme's colours. `names` are the
/// names of the systems it names, `chan` how its channel is shown and `stamp` its
/// time.
pub open spec fn rendered(
    e: LogEntry,
    names: Seq<Seq<char>>,
    chan: Seq<char>,
    stamp: Seq<char>,
    in_range: bool,
    in_danger: bool,
    dangerous: bool,
) -> Seq<char> {
    let t = theme_of(in_range, in_danger, dangerous);
    let ps = words(e.content@).map_values(|w: Seq<char>| phrase_of(w, names));
    let fr = focus_and_rest(e, ps, chan, t.2);
    let author = match e.author {
        crate::logs::ChatAuthor::System => "System"@,
        crate::logs::ChatAuthor::Character(n) => n@,
    };
    t.0 + stamp + "\x1b[0m"@ + " "@ + t.1 + padded(author, 37) + "\x1b[0m"@ + " "@ + fr.0 + t.3
        + join_spaced(fr.1.map_values(|p: (bool, Seq<char>)| shown(p, t.2))) + "\x1b[0m"@
}

/// Whether `names` are the names of the systems with the ids `ids` on the map.
pub open spec fn names_of(map: StarMap, ids: Seq<crate::StarId>) -> Seq<Seq<char>> {
    ids.map_values(|id: crate::StarId| map.system_of(id).name@)
}

/// Whether the text `s` is one of `names`.
fn is_one_of(names: &Vec<String>, s: &str) -> (r: bool)
    ensures
        r == names@.map_values(|n: String| n@).contains(s@),
{
    let ghost nv = names@.map_values(|n: String| n@);
    let mut i: usize = 0;
    while i < names.len()
        invariant
            i <= names.len(),
            nv == names@.map_values(|n: String| n@),
            forall|k: int| 0 <= k < i ==> nv[k] != s@,
        decreases names.len() - i,
    {
        if crate::text::str_eq(names[i].as_str(), s) {
            assert(nv[i as int] == s@);
            return true;
        }
        i = i + 1;
    }
    false
}

/// The words shown, joined with single spaces.
fn join_shown(ps: &Vec<(bool, String)>, focus: &str) -> (r: String)
    ensures
        r@ == join_spaced(
            ps@.map_values(|p: (bool, String)| (p.0, p.1@)).map_values(
                |p: (bool, Seq<char>)| shown(p, focus@),
            ),
        ),
{
    let ghost pv = ps@.map_values(|p: (bool, String)| (p.0, p.1@)).map_values(
        |p: (bool, Seq<char>)| shown(p, focus@),
    );
    let mut out = String::new();
    let mut i: usize = 0;
    proof {
        reveal_strlit(" ");
        reveal_strlit("\x1b[0m");
    }
    assert(pv.take(0) =~= Seq::<Seq<char>>::empty());
    while i < ps.len()
        invariant
            i <= ps.len(),
            pv.len() == ps@.len(),
            pv == ps@.map_values(|p: (bool, String)| (p.0, p.1@)).map_values(
                |p: (bool, Seq<char>)| shown(p, focus@),
            ),
            out@ == join_spaced(pv.take(i as int)),
        decreases ps.len() - i,
    {
        let ghost t = pv.take(i as int + 1);
        assert(t.drop_last() =~= pv.take(i as int));
        assert(t.last() == pv[i as int]);
        if i > 0 {
            out.append(" ");
        }
        if ps[i].0 {
            out.append(focus);
            out.append(ps[i].1.as_str());
            out.append(CLR);
        } else {
            out.append(ps[i].1.as_str());
        }
        proof {
            if i == 0 {
                assert(out@ =~= join_spaced(t));
            } else {
                assert(out@ =~= join_spaced(t));
            }
        }
        i = i + 1;
    }
    assert(pv.take(ps.len() as int) =~= pv);
    out
}

impl<'this, 'run> LogEntryAnsi<'this, 'run> {
    /// The line that shows the entry. The star map must hold each system the entry
    /// names, its time must be one chrono represents, and where the line shows a
    /// group channel, the channel name index must hold a position of its id.
    pub fn render(&self, star_map: &StarMap) -> (r: String)
        requires
            forall|i: int|
                0 <= i < self.entry.analysis.spec_system_ids().len() ==> star_map.has(
                    #[trigger] self.entry.analysis.spec_system_ids()[i],
                ),
            stamp_in_range(self.entry.timestamp),
            shows_channel(*self.entry) ==> (self.entry.character_log matches CharacterLog::Group {
                channel_id,
                ..
            } ==> (channel_id as int) < self.index.channel_names.0@.len()),
        ensures
            r@ == rendered(
                *self.entry,
                names_of(*star_map, self.entry.analysis.spec_system_ids()),
                channel_shown(self.entry.character_log, *self.index),
                month_day_time_text(self.entry.timestamp.0 as int),
                self.in_range,
                self.in_danger,
                self.dangerous,
            ),
    {
        let theme = LogEntryAnsiTheme::from_entry(self);
        let stamp = month_day_time(&self.entry.timestamp);
        let author = pad_right(self.entry.author.as_str(), 37);
        let ids = self.entry.analysis.system_ids();
        let ghost names_view = names_of(*star_map, self.entry.analysis.spec_system_ids());
        let mut names: Vec<String> = Vec::new();
        let mut k: usize = 0;
        while k < ids.len()
            invariant
                k <= ids.len(),
                ids@ == self.entry.analysis.spec_system_ids(),
                forall|i: int| 0 <= i < ids@.len() ==> star_map.has(#[trigger] ids@[i]),
                names@.len() == k,
                forall|i: int|
                    0 <= i < k ==> (#[trigger] names@[i])@ == star_map.system_of(ids@[i]).name@,
            decreases ids.len() - k,
        {
            let sys = star_map.system(&ids[k]);
            names.push(sys.name.clone());
            k = k + 1;
        }
        assert(names@.map_values(|n: String| n@) =~= names_view);
        let content = chars_of(self.entry.content.as_str());
        let ws = split_whitespace(&content);
        let ghost wv = crate::text::views(ws@);
        let mut ps: Vec<(bool, String)> = Vec::new();
        let mut j: usize = 0;
        while j < ws.len()
            invariant
                j <= ws.len(),
                wv == crate::text::views(ws@),
                wv == words(self.entry.content@),
                names@.map_values(|n: String| n@) == names_view,
                ps@.len() == j,
                forall|i: int|
                    0 <= i < j ==> ((#[trigger] ps@[i]).0, ps@[i].1@) == phrase_of(wv[i], names_view),
            decreases ws.len() - j,
        {
            let trimmed = trim_end_matches_char(&ws[j], '*');
            let up = to_uppercase(string_from_chars(&trimmed).as_str());
            assert(wv[j as int] == ws@[j as int]@);
            if is_one_of(&names, up.as_str()) {
                ps.push((true, up));
            } else {
                ps.push((false, string_from_chars(&ws[j])));
            }
            j = j + 1;
        }
        let ghost psv = wv.map_values(|w: Seq<char>| phrase_of(w, names_view));
        assert(ps@.map_values(|p: (bool, String)| (p.0, p.1@)) =~= psv);
        let mut focus_word = String::new();
        let single = self.entry.analysis.has_single_system();
        if single {
            let mut p: usize = 0;
            let mut found = false;
            while p < ps.len() && !found
                invariant
                    p <= ps.len(),
                    !found ==> first_system_below(psv, p as int) is None,
                    found ==> p > 0 && first_system_below(psv, psv.len() as int) == Some(p - 1),
                    ps@.map_values(|q: (bool, String)| (q.0, q.1@)) == psv,
                    psv.len() == ps@.len(),
                decreases ps.len() - p,
            {
                if ps[p].0 {
                    assert(psv[p as int].0);
                    proof {
                        lemma_first_system_found(psv, p as int + 1, psv.len() as int, p as int);
                    }
                    found = true;
                }
                p = p + 1;
            }
            if found {
                let ghost before = ps@;
                let (_, word) = ps.remove(p - 1);
                focus_word.append(theme.focus_fg);
                focus_word.append(word.as_str());
                focus_word.append(CLR);
                focus_word.append(" ");
                assert(ps@.map_values(|q: (bool, String)| (q.0, q.1@)) =~= psv.remove(p as int - 1));
            }
        } else if self.entry.analysis.has_callout() {
            let chan = self.entry.character_log.display_str(self.index);
            focus_word.append(theme.focus_fg);
            focus_word.append(chan);
            focus_word.append(CLR);
            focus_word.append(" ");
        }
        let content_text = join_shown(&ps, theme.focus_fg);
        let mut out = String::new();
        out.append(theme.stamp_fg);
        out.append(stamp.as_str());
        out.append(CLR);
        out.append(" ");
        out.append(theme.author_fg);
        out.append(author.as_str());
        out.append(CLR);
        out.append(" ");
        out.append(focus_word.as_str());
        out.append(theme.content_fg);
        out.append(content_text.as_str());
        out.append(CLR);
        proof {
            reveal_strlit(" ");
            reveal_strlit("\x1b[0m");
        }
        out
    }
}

proof fn lemma_first_system_found(ps: Seq<(bool, Seq<char>)>, m: int, n: int, i: int)
    requires
        first_system_below(ps, m) == Some(i),
        m <= n,
    ensures
        first_system_below(ps, n) == Some(i),
    decreases n - m,
{
    if n > m {
        lemma_first_system_found(ps, m, n - 1, i);
    }
}


/// The decimal digit `d`.
pub open spec fn digit_char(d: nat) -> char {
    if d == 0 {
        '0'
    } else if d == 1 {
        '1'
    } else if d == 2 {
        '2'
    } else if d == 3 {
        '3'
    } else if d == 4 {
        '4'
    } else if d == 5 {
        '5'
    } else if d == 6 {
        '6'
    } else if d == 7 {
        '7'
    } else if d == 8 {
        '8'
    } else {
        '9'
    }
}

/// The decimal form of `n`, as `Display` writes it.
pub open spec fn decimal(n: nat) -> Seq<char>
    decreases n,
{
    if n < 10 {
        seq![digit_char(n)]
    } else {
        decimal(n / 10).push(digit_char(n % 10))
    }
}

fn digit_text(d: u64) -> (r: &'static str)
    requires
        d < 10,
    ensures
        r@ == seq![digit_char(d as nat)],
{
    proof {
        reveal_strlit("0");
        reveal_strlit("1");
        reveal_strlit("2");
        reveal_strlit("3");
        reveal_strlit("4");
        reveal_strlit("5");
        reveal_strlit("6");
        reveal_strlit("7");
        reveal_strlit("8");
        reveal_strlit("9");
    }
    if d == 0 {
        "0"
    } else if d == 1 {
        "1"
    } else if d == 2 {
        "2"
    } else if d == 3 {
        "3"
    } else if d == 4 {
        "4"
    } else if d == 5 {
        "5"
    } else if d == 6 {
        "6"
    } else if d == 7 {
        "7"
    } else if d == 8 {
        "8"
    } else {
        "9"
    }
}

/// The decimal form of `n`.
pub fn decimal_text(n: u64) -> (r: String)
    ensures
        r@ == decimal(n as nat),
    decreases n,
{
    if n < 10 {
        digit_text(n).to_owned()
    } else {
        let mut s = decimal_text(n / 10);
        s.append(digit_text(n % 10));
        s
    }
}

/// The names `names`, each in `colour`, joined with `sep`.
pub open spec fn coloured_list(names: Seq<Seq<char>>, colour: Seq<char>, sep: Seq<char>) -> Seq<char>
    decreases names.len(),
{
    if names.len() == 0 {
        seq![]
    } else if names.len() == 1 {
        colour + names[0] + "\x1b[0m"@
    } else {
        coloured_list(names.drop_last(), colour, sep) + sep + colour + names.last() + "\x1b[0m"@
    }
}

/// The names `names`, each in `colour`, joined with `sep`.
fn coloured_list_text(names: &Vec<String>, colour: &str, sep: &str) -> (r: String)
    ensures
        r@ == coloured_list(names@.map_values(|n: String| n@), colour@, sep@),
{
    let ghost nv = names@.map_values(|n: String| n@);
    let mut out = String::new();
    let mut i: usize = 0;
    proof {
        reveal_strlit("\x1b[0m");
    }
    assert(nv.take(0) =~= Seq::<Seq<char>>::empty());
    while i < names.len()
        invariant
            i <= names.len(),
            nv == names@.map_values(|n: String| n@),
            out@ == coloured_list(nv.take(i as int), colour@, sep@),
        decreases names.len() - i,
    {
        let ghost t = nv.take(i as int + 1);
        assert(t.drop_last() =~= nv.take(i as int));
        assert(t.last() == nv[i as int]);
        if i > 0 {
            out.append(sep);
        }
        out.append(colour);
        out.append(names[i].as_str());
        out.append(CLR);
        assert(out@ =~= coloured_list(t, colour@, sep@));
        i = i + 1;
    }
    assert(nv.take(names.len() as int) =~= nv);
    out
}

/// What the terminal shows when a run starts: the watched systems, the watched
/// characters and the watched channels, then the jump range and the systems in it.
pub open spec fn args_shown(
    systems: Seq<Seq<char>>,
    characters: Seq<Seq<char>>,
    channels: Seq<Seq<char>>,
    jumps: u8,
    range: Seq<Seq<char>>,
) -> Seq<char> {
    "\x1b[36m[sonar]\x1b[0m"@ + " watching "@ + coloured_list(systems, "\x1b[94m"@, " "@)
        + " for "@ + "\x1b[35m"@ + join_with(characters, ", "@) + "\x1b[0m"@ + " in "@
        + coloured_list(channels, "\x1b[32m"@, " "@) + "\n"@ + "\x1b[36m[sonar]\x1b[0m"@
        + " within "@ + decimal(jumps as nat) + " jumps: "@ + coloured_list(
        range,
        "\x1b[94m"@,
        " "@,
    ) + "\n"@
}

fn join_with_text(ss: &Vec<String>, sep: &str) -> (r: String)
    ensures
        r@ == join_with(ss@.map_values(|n: String| n@), sep@),
{
    let ghost nv = ss@.map_values(|n: String| n@);
    let mut out = String::new();
    let mut i: usize = 0;
    assert(nv.take(0) =~= Seq::<Seq<char>>::empty());
    while i < ss.len()
        invariant
            i <= ss.len(),
            nv == ss@.map_values(|n: String| n@),
            out@ == join_with(nv.take(i as int), sep@),
        decreases ss.len() - i,
    {
        let ghost t = nv.take(i as int + 1);
        assert(t.drop_last() =~= nv.take(i as int));
        assert(t.last() == nv[i as int]);
        if i > 0 {
            out.append(sep);
        }
        out.append(ss[i].as_str());
        assert(out@ =~= join_with(t, sep@));
        i = i + 1;
    }
    assert(nv.take(ss.len() as int) =~= nv);
    out
}

/// What the terminal shows when a run starts.
pub fn args_text(
    systems: &Vec<String>,
    characters: &Vec<String>,
    channels: &Vec<String>,
    jumps: u8,
    range: &Vec<String>,
) -> (r: String)
    ensures
        r@ == args_shown(
            systems@.map_values(|n: String| n@),
            characters@.map_values(|n: String| n@),
            channels@.map_values(|n: String| n@),
            jumps,
            range@.map_values(|n: String| n@),
        ),
{
    let mut out = INFO.to_owned();
    out.append(" watching ");
    let s = coloured_list_text(systems, BRIGHT_BLUE, " ");
    out.append(s.as_str());
    out.append(" for ");
    out.append(MAGENTA);
    let c = join_with_text(characters, ", ");
    out.append(c.as_str());
    out.append(CLR);
    out.append(" in ");
    let ch = coloured_list_text(channels, GREEN, " ");
    out.append(ch.as_str());
    out.append("\n");
    out.append(INFO);
    out.append(" within ");
    let j = decimal_text(jumps as u64);
    out.append(j.as_str());
    out.append(" jumps: ");
    let rg = coloured_list_text(range, BRIGHT_BLUE, " ");
    out.append(rg.as_str());
    out.append("\n");
    assert(out@ =~= args_shown(
        systems@.map_values(|n: String| n@),
        characters@.map_values(|n: String| n@),
        channels@.map_values(|n: String| n@),
        jumps,
        range@.map_values(|n: String| n@),
    ));
    out
}

/// What the terminal shows when a step ends: `done` in green, or `failed` in red.
pub open spec fn finished_shown(success: bool) -> Seq<char> {
    if success {
        "\x1b[32mdone\x1b[0m\n"@
    } else {
        "\x1b[31mfailed\x1b[0m\n"@
    }
}

/// The asset that a download event's id stands for: the assets in the order that
/// [crate::assets::RemoteAssets::all] gives them.
pub open spec fn asset_of_id(id: u8) -> Option<crate::assets::RemoteAssets> {
    if id == 0 {
        Some(crate::assets::RemoteAssets::VoiceModelConfig)
    } else if id == 1 {
        Some(crate::assets::RemoteAssets::VoiceModel)
    } else {
        None
    }
}

/// What the terminal shows for an event other than the start of a run and a log
/// entry: a notice that a step begins (with no line break, the step's end follows
/// on the same line), the end of a step, or a connection's outcome. Pings show
/// nothing, and so does the download of an asset id that stands for none.
pub open spec fn event_shown(event: DataEvent) -> Option<Seq<char>> {
    match event {
        DataEvent::ClosingClient => Some("\x1b[36m[sonar]\x1b[0m closing server connections ... "@),
        DataEvent::ClosingServer => Some("\x1b[36m[sonar]\x1b[0m closing server connections ... "@),
        DataEvent::ClosedClient => Some(finished_shown(true)),
        DataEvent::ClosedServer => Some(finished_shown(true)),
        DataEvent::Downloading { id } => match asset_of_id(id) {
            Some(a) => Some(
                "\x1b[36m[sonar]\x1b[0m downloading asset \x1b[35m"@ + crate::assets::asset_of(a).0
                    + "\x1b[0m ... "@,
            ),
            None => None,
        },
        DataEvent::Download { success, .. } => Some(finished_shown(success)),
        DataEvent::GeneratingCerts => Some("\x1b[36m[sonar]\x1b[0m generating TLS certificates ... "@),
        DataEvent::GenerateCerts { success } => if success {
            Some(
                finished_shown(true)
                    + "\x1b[36m[sonar]\x1b[0m please distribute to clients: \x1b[35m~/.config/solar_sonar/certs/authority_server.pem\x1b[0m\n"@,
            )
        } else {
            Some(finished_shown(false))
        },
        DataEvent::Connecting { to } => Some(
            "\x1b[36m[sonar]\x1b[0m connecting to \x1b[35m"@ + to@ + "\x1b[0m\n"@,
        ),
        DataEvent::Connect { to, success } => if success {
            Some("\x1b[36m[sonar]\x1b[0m connected to \x1b[35m"@ + to@ + "\x1b[0m\n"@)
        } else {
            Some("\x1b[31m[sonar]\x1b[0m failed to connect to \x1b[35m"@ + to@ + "\x1b[0m\n"@)
        },
        _ => None,
    }
}

/// What the terminal shows for an event other than the start of a run and a log
/// entry.
pub fn event_text(event: &DataEvent) -> (r: Option<String>)
    ensures
        match event_shown(*event) {
            Some(s) => r matches Some(t) && t@ == s,
            None => r is None,
        },
{
    proof {
        reveal_strlit("\x1b[36m[sonar]\x1b[0m closing server connections ... ");
        reveal_strlit("\x1b[32mdone\x1b[0m\n");
        reveal_strlit("\x1b[31mfailed\x1b[0m\n");
        reveal_strlit("\x1b[36m[sonar]\x1b[0m downloading asset \x1b[35m");
        reveal_strlit("\x1b[0m ... ");
        reveal_strlit("\x1b[36m[sonar]\x1b[0m generating TLS certificates ... ");
        reveal_strlit("\x1b[36m[sonar]\x1b[0m please distribute to clients: \x1b[35m~/.config/solar_sonar/certs/authority_server.pem\x1b[0m\n");
        reveal_strlit("\x1b[36m[sonar]\x1b[0m connecting to \x1b[35m");
        reveal_strlit("\x1b[0m\n");
        reveal_strlit("\x1b[36m[sonar]\x1b[0m connected to \x1b[35m");
        reveal_strlit("\x1b[31m[sonar]\x1b[0m failed to connect to \x1b[35m");
    }
    match event {
        DataEvent::ClosingClient | DataEvent::ClosingServer => Some(
            "\x1b[36m[sonar]\x1b[0m closing server connections ... ".to_owned(),
        ),
        DataEvent::ClosedClient | DataEvent::ClosedServer => Some("\x1b[32mdone\x1b[0m\n".to_owned()),
        DataEvent::Downloading { id } => {
            let asset = if *id == 0 {
                crate::assets::RemoteAssets::VoiceModelConfig
            } else if *id == 1 {
                crate::assets::RemoteAssets::VoiceModel
            } else {
                return None;
            };
            let mut s = "\x1b[36m[sonar]\x1b[0m downloading asset \x1b[35m".to_owned();
            s.append(asset.get().name);
            s.append("\x1b[0m ... ");
            Some(s)
        },
        DataEvent::Download { success, .. } => Some(
            if *success {
                "\x1b[32mdone\x1b[0m\n".to_owned()
            } else {
                "\x1b[31mfailed\x1b[0m\n".to_owned()
            },
        ),
        DataEvent::GeneratingCerts => Some(
            "\x1b[36m[sonar]\x1b[0m generating TLS certificates ... ".to_owned(),
        ),
        DataEvent::GenerateCerts { success } => {
            if *success {
                let mut s = "\x1b[32mdone\x1b[0m\n".to_owned();
                s.append(
                    "\x1b[36m[sonar]\x1b[0m please distribute to clients: \x1b[35m~/.config/solar_sonar/certs/authority_server.pem\x1b[0m\n",
                );
                Some(s)
            } else {
                Some("\x1b[31mfailed\x1b[0m\n".to_owned())
            }
        },
        DataEvent::Connecting { to } => {
            let mut s = "\x1b[36m[sonar]\x1b[0m connecting to \x1b[35m".to_owned();
            s.append(to.as_str());
            s.append("\x1b[0m\n");
            Some(s)
        },
        DataEvent::Connect { to, success } => {
            let mut s = if *success {
                "\x1b[36m[sonar]\x1b[0m connected to \x1b[35m".to_owned()
            } else {
                "\x1b[31m[sonar]\x1b[0m failed to connect to \x1b[35m".to_owned()
            };
            s.append(to.as_str());
            s.append("\x1b[0m\n");
            Some(s)
        },
        _ => None,
    }
}


/// Padding keeps the text at its start and makes it at least the width long,
/// adding nothing to a text that is long enough.
pub proof fn lemma_padded(s: Seq<char>, width: nat)
    ensures
        padded(s, width).len() == if s.len() >= width { s.len() } else { width },
        padded(s, width).subrange(0, s.len() as int) == s,
        forall|i: int| s.len() <= i < padded(s, width).len() ==> #[trigger] padded(s, width)[i] == ' ',
{
    if s.len() < width {
        assert(padded(s, width).subrange(0, s.len() as int) =~= s);
    } else {
        assert(padded(s, width).subrange(0, s.len() as int) =~= s);
    }
}

} // verus!
