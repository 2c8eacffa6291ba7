//! Telling the host which plugins to load: by name, and from and to a backup
//! file that holds one line `enable <plugin>` for each plugin that is loaded.

use crate::database::{Database, InstalledPluginView};
use crate::metadata::list_view;
use crate::text::{
    chars_of, is_whitespace, lemma_leading_space_is, lemma_trailing_space_is, same_text, trimmed,
    views, whitespace,
};
use vstd::prelude::*;
use vstd::string::{StrSliceExecFns, StringExecFns};

verus! {

/// What the caller is asked to do.
#[derive(Debug, Clone, PartialEq, Eq)]
pub enum Mode {
    /// Enable the plugins of these names.
    Plugins { names: Vec<String> },
    /// Write the plugins that the host loads to the backup file.
    Snapshot { path: String },
    /// Enable the plugins that the backup file lists.
    Restore { path: String },
    /// Nothing.
    Idle,
}

/// A mode as plain values.
pub enum ModeView {
    Plugins { names: Seq<Seq<char>> },
    Snapshot { path: Seq<char> },
    Restore { path: Seq<char> },
    Idle,
}

impl View for Mode {
    type V = ModeView;

    open spec fn view(&self) -> ModeView {
        match self {
            Mode::Plugins { names } => ModeView::Plugins { names: views(names@) },
            Mode::Snapshot { path } => ModeView::Snapshot { path: path@ },
            Mode::Restore { path } => ModeView::Restore { path: path@ },
            Mode::Idle => ModeView::Idle,
        }
    }
}

/// The backup file that is used where the caller names none.
pub open spec fn default_backup(tmp_folder: Seq<char>) -> Seq<char> {
    tmp_folder + "/plugins_status.backup"@
}

/// What a request asks for: the named plugins, or all installed ones, come
/// before a snapshot, and a snapshot before a restore.
pub open spec fn spec_enable(
    listing: Seq<Seq<char>>,
    packages: Option<Seq<Seq<char>>>,
    all: bool,
    snapshot: bool,
    restore: bool,
    backup_path: Option<Seq<char>>,
    tmp_folder: Seq<char>,
) -> ModeView {
    let path = match backup_path {
        Some(path) => path,
        None => default_backup(tmp_folder),
    };
    if all {
        ModeView::Plugins { names: listing }
    } else if let Some(names) = packages {
        ModeView::Plugins { names }
    } else if snapshot {
        ModeView::Snapshot { path }
    } else if restore {
        ModeView::Restore { path }
    } else {
        ModeView::Idle
    }
}

/// Decides what a request asks for.
pub fn enable(
    db: &Database,
    packages: Option<Vec<String>>,
    all: bool,
    snapshot: bool,
    restore: bool,
    backup_path: Option<String>,
    tmp_folder: &str,
) -> (r: Mode)
    ensures
        r@ == spec_enable(
            db.listing(),
            list_view(packages),
            all,
            snapshot,
            restore,
            match backup_path {
                Some(path) => Some(path@),
                None => None,
            },
            tmp_folder@,
        ),
{
    if all {
        return Mode::Plugins { names: db.names() };
    }
    if let Some(names) = packages {
        return Mode::Plugins { names };
    }
    let path = match backup_path {
        Some(path) => path,
        None => {
            let mut path = tmp_folder.to_owned();
            path.append("/plugins_status.backup");
            path
        },
    };
    if snapshot {
        Mode::Snapshot { path }
    } else if restore {
        Mode::Restore { path }
    } else {
        Mode::Idle
    }
}

/// The resources of the plugin `name` that the host is told to load: `None`
/// for a plugin that is not installed, none for one that brings none.
pub open spec fn spec_jars_of(db: Map<Seq<char>, InstalledPluginView>, name: Seq<char>) -> Option<
    Seq<Seq<char>>,
> {
    if db.contains_key(name) {
        match db[name].metadata.jar_files {
            Some(jars) => Some(jars),
            None => Some(Seq::empty()),
        }
    } else {
        None
    }
}

/// Looks up the resources of a plugin that the host is told to load.
pub fn jars_of(db: &Database, name: &str) -> (r: Option<Vec<String>>)
    requires
        db.wf(),
    ensures
        list_view(r) == spec_jars_of(db@, name@),
{
    match db.get(name) {
        None => None,
        Some(record) => match &record.metadata.jar_files {
            Some(jars) => Some(crate::metadata::copy_texts(jars)),
            None => {
                let none: Vec<String> = Vec::new();
                assert(views(none@) =~= Seq::<Seq<char>>::empty());
                Some(none)
            },
        },
    }
}

// ---------------------------------------------------------------------------
// The backup file
// ---------------------------------------------------------------------------

/// One of `jars` is among `enabled`.
pub open spec fn any_enabled(jars: Seq<Seq<char>>, enabled: Seq<Seq<char>>) -> bool {
    exists|i: int| 0 <= i < jars.len() && enabled.contains(#[trigger] jars[i])
}

/// The plugin brings a resource that the host loads.
pub open spec fn is_loaded(record: InstalledPluginView, enabled: Seq<Seq<char>>) -> bool {
    match record.metadata.jar_files {
        Some(jars) => any_enabled(jars, enabled),
        None => false,
    }
}

/// The line of the backup file for the plugin `name`.
pub open spec fn backup_line(name: Seq<char>) -> Seq<char> {
    "enable "@ + name
}

/// The lines of the backup file for the plugins `names`: one for each plugin
/// that brings a resource which the host loads, in order.
pub open spec fn backup_lines(
    db: Map<Seq<char>, InstalledPluginView>,
    names: Seq<Seq<char>>,
    enabled: Seq<Seq<char>>,
) -> Seq<Seq<char>>
    decreases names.len(),
{
    if names.len() == 0 {
        Seq::empty()
    } else if db.contains_key(names.last()) && is_loaded(db[names.last()], enabled) {
        backup_lines(db, names.drop_last(), enabled).push(backup_line(names.last()))
    } else {
        backup_lines(db, names.drop_last(), enabled)
    }
}

/// Tells whether `text` is among `texts`.
pub fn contains_text(texts: &Vec<String>, text: &str) -> (r: bool)
    ensures
        r == views(texts@).contains(text@),
{
    let ghost all = views(texts@);
    let mut i: usize = 0;
    while i < texts.len()
        invariant
            i <= texts.len(),
            all == views(texts@),
            forall|j: int| 0 <= j < i ==> #[trigger] all[j] != text@,
        decreases texts.len() - i,
    {
        assert(all[i as int] == texts@[i as int]@);
        if same_text(texts[i].as_str(), text) {
            return true;
        }
        i += 1;
    }
    false
}

/// Tells whether one of `jars` is among `enabled`.
pub fn any_of(jars: &Vec<String>, enabled: &Vec<String>) -> (r: bool)
    ensures
        r == any_enabled(views(jars@), views(enabled@)),
{
    let ghost all = views(jars@);
    let mut i: usize = 0;
    while i < jars.len()
        invariant
            i <= jars.len(),
            all == views(jars@),
            forall|j: int| 0 <= j < i ==> !views(enabled@).contains(#[trigger] all[j]),
        decreases jars.len() - i,
    {
        assert(all[i as int] == jars@[i as int]@);
        if contains_text(enabled, jars[i].as_str()) {
            return true;
        }
        i += 1;
    }
    false
}

/// Lists the lines of the backup file: one for each installed plugin that
/// brings a resource among `enabled`, the resources which the host loads.
pub fn snapshot(db: &Database, enabled: &Vec<String>) -> (r: Vec<String>)
    requires
        db.wf(),
    ensures
        views(r@) == backup_lines(db@, db.listing(), views(enabled@)),
{
    let names = db.names();
    let ghost all = views(names@);
    let mut lines: Vec<String> = Vec::new();
    let mut i: usize = 0;
    assert(views(lines@) =~= Seq::<Seq<char>>::empty());
    while i < names.len()
        invariant
            i <= names.len(),
            db.wf(),
            all == views(names@),
            views(lines@) == backup_lines(db@, all.take(i as int), views(enabled@)),
        decreases names.len() - i,
    {
        proof {
            assert(all.take(i + 1).drop_last() =~= all.take(i as int));
            assert(all.take(i + 1).last() == names@[i as int]@);
        }
        let loaded = match db.get(names[i].as_str()) {
            None => false,
            Some(record) => match &record.metadata.jar_files {
                Some(jars) => any_of(jars, enabled),
                None => false,
            },
        };
        if loaded {
            let mut line = "enable ".to_owned();
            line.append(names[i].as_str());
            let ghost before = views(lines@);
            lines.push(line);
            assert(views(lines@) =~= before.push(backup_line(names@[i as int]@)));
        }
        i += 1;
    }
    assert(all.take(i as int) =~= all);
    lines
}

/// The position of the first space in `s`, or the length of `s` if it has
/// none.
pub open spec fn first_space(s: Seq<char>) -> nat
    decreases s.len(),
{
    if s.len() == 0 || s[0] == ' ' {
        0
    } else {
        1 + first_space(s.drop_first())
    }
}

/// The plugin that a line of the backup file names: what stands between the
/// first space of the line and the next one, the white space around the line
/// left aside. `None` for a line without a space.
pub open spec fn spec_restore_name(line: Seq<char>) -> Option<Seq<char>> {
    let t = trimmed(line);
    let at = first_space(t) as int;
    if at == t.len() {
        None
    } else {
        let rest = t.skip(at + 1);
        Some(rest.take(first_space(rest) as int))
    }
}

/// In text without a space in its first `n` characters and with one right
/// behind them, the first space is at `n`; without any space it is at the
/// end.
pub proof fn lemma_first_space_is(s: Seq<char>, n: int)
    requires
        0 <= n <= s.len(),
        forall|i: int| 0 <= i < n ==> #[trigger] s[i] != ' ',
        n == s.len() || s[n] == ' ',
    ensures
        first_space(s) == n,
    decreases n,
{
    if n > 0 {
        let t = s.drop_first();
        assert forall|i: int| 0 <= i < n - 1 implies #[trigger] t[i] != ' ' by {
            assert(t[i] == s[i + 1]);
        }
        if n < s.len() {
            assert(t[n - 1] == s[n]);
        }
        lemma_first_space_is(t, n - 1);
    }
}

/// Finds the first space at or behind `from` and before `to`.
fn find_space(chars: &Vec<char>, from: usize, to: usize) -> (r: usize)
    requires
        from <= to <= chars@.len(),
    ensures
        from <= r <= to,
        r - from == first_space(chars@.subrange(from as int, to as int)),
{
    let mut at: usize = from;
    while at < to && chars[at] != ' '
        invariant
            from <= at <= to <= chars@.len(),
            forall|i: int| from <= i < at ==> #[trigger] chars@[i] != ' ',
        decreases to - at,
    {
        at += 1;
    }
    proof {
        let piece = chars@.subrange(from as int, to as int);
        assert forall|i: int| 0 <= i < at - from implies #[trigger] piece[i] != ' ' by {
            assert(piece[i] == chars@[from + i]);
        }
        lemma_first_space_is(piece, at - from);
    }
    at
}

/// Reads the name of the plugin from a line of the backup file.
pub fn restore_name(line: &str) -> (r: Option<String>)
    ensures
        match r {
            Some(name) => spec_restore_name(line@) == Some(name@),
            None => spec_restore_name(line@) is None,
        },
{
    let chars = chars_of(line);
    let n: usize = chars.len();
    let mut start: usize = 0;
    while start < n && whitespace(chars[start])
        invariant
            start <= n == chars@.len(),
            forall|i: int| 0 <= i < start ==> is_whitespace(#[trigger] chars@[i]),
        decreases n - start,
    {
        start += 1;
    }
    proof {
        lemma_leading_space_is(chars@, start as int);
    }
    if start == n {
        assert(first_space(Seq::<char>::empty()) == 0);
        return None;
    }
    let mut end: usize = n;
    while end > start && whitespace(chars[end - 1])
        invariant
            start <= end <= n == chars@.len(),
            start < n,
            !is_whitespace(chars@[start as int]),
            forall|i: int| end <= i < n ==> is_whitespace(#[trigger] chars@[i]),
        decreases end,
    {
        end -= 1;
    }
    proof {
        lemma_trailing_space_is(chars@, n - end);
    }
    let ghost t = chars@.subrange(start as int, end as int);
    assert(t == trimmed(line@));
    let at: usize = find_space(&chars, start, end);
    if at == end {
        return None;
    }
    let next: usize = find_space(&chars, at + 1, end);
    proof {
        let rest = t.skip(at - start + 1);
        assert(rest =~= chars@.subrange(at + 1, end as int));
        assert(rest.take(next - at - 1) =~= line@.subrange(at + 1, next as int));
    }
    Some(line.substring_char(at + 1, next).to_owned())
}

} // verus!
