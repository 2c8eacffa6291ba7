//! The outer container of an rpkg file: an `ar` archive whose members are the
//! metadata document and the nested bundles.
//!
//! The members are read by the `ar` crate. Before it is handed an archive, the
//! member headers are walked here, and the archive is refused where a header
//! refers to a name behind the end of the table of names, or is written in a
//! way in which this walk cannot follow the reading.

use crate::text::utf8_text;
use crate::versions::{decimal_value, digit_run, is_digit, lemma_digit_run_is};
use std::io::Read;
use vstd::prelude::*;
use vstd::utf8::{decode_utf8, valid_utf8};

verus! {

/// Why the members of a container could not all be read.
#[derive(Debug, Clone, Copy, PartialEq, Eq, Structural)]
pub enum ContainerFault {
    /// A member header refers to a name behind the end of the table of
    /// names, gives a number in an unusual form, or announces more than the
    /// archive holds.
    Unsupported,
    /// The archive is not an `ar` archive, or a member of it is damaged.
    Malformed,
    /// The name of a member is not UTF-8.
    EntryName,
}

/// A member of a container as the `ar` crate hands it out.
pub struct Member {
    pub name: Vec<u8>,
    pub data: Vec<u8>,
}

/// A member of a container whose name is text.
#[derive(Debug, Clone)]
pub struct Entry {
    pub name: String,
    pub data: Vec<u8>,
}

/// The members of a container that could be read, in file order, and the fault
/// that ended the reading, if one did.
#[derive(Debug, Clone)]
pub struct Container {
    pub entries: Vec<Entry>,
    pub fault: Option<ContainerFault>,
}

// ---------------------------------------------------------------------------
// Member headers that can be handed on
// ---------------------------------------------------------------------------

// An archive begins with a magic text of 8 bytes. Each member follows as a
// header of 60 bytes and its data, padded to an even length. The header holds
// the name of the member in its first 16 bytes and the size of the data in
// the 10 bytes from 48 on, both padded with spaces. A name that does not fit
// is kept elsewhere: in the GNU form the header holds `/` and the position of
// the name in a table, which is the data of a member named `//`; in the BSD
// form the header holds `#1/` and the length of the name, which stands in
// front of the data. A member named `/`, or `__.SYMDEF` in the BSD form,
// holds a table of symbols and is passed over.

/// `field` is a number in decimal digits, padded with spaces to the right.
pub open spec fn plain_number(field: Seq<u8>) -> bool {
    let n = digit_run(field) as int;
    n > 0 && forall|i: int| n <= i < field.len() ==> #[trigger] field[i] == 32
}

/// The number that a padded field holds.
pub open spec fn field_value(field: Seq<u8>) -> nat {
    decimal_value(field.take(digit_run(field) as int))
}

/// The name field holds spaces only from `from` on.
pub open spec fn blank_from(name: Seq<u8>, from: int) -> bool {
    forall|i: int| from <= i < name.len() ==> #[trigger] name[i] == 32
}

/// The name in the name field ends with `/`.
pub open spec fn ends_with_slash(name: Seq<u8>) -> bool {
    exists|k: int| 0 <= k < name.len() && #[trigger] name[k] == 47 && blank_from(name, k + 1)
}

/// The text `__.SYMDEF`.
pub open spec fn symdef() -> Seq<u8> {
    seq![95u8, 95u8, 46u8, 83u8, 89u8, 77u8, 68u8, 69u8, 70u8]
}

/// Where the reading of an archive stands, with what the reading of the next
/// header depends on: whether a header in the GNU form or one in the BSD form
/// has been met, and the length of the table of names.
pub struct Walk {
    pub at: int,
    pub gnu: bool,
    pub bsd: bool,
    pub table: nat,
}

/// What the header at the place of a walk means for the walk.
pub enum Advance {
    /// The archive is not handed on.
    Refuse,
    /// The reading ends with this header.
    End,
    /// The reading goes on.
    Go(Walk),
}

/// What the header at `w.at` means for the walk. The archive is refused where
/// the header
/// - gives the size, the position of a name in the table or the length of a
///   name in another form than a plain number;
/// - refers to a name behind the end of the table of names;
/// - announces a table of names or a name that is longer than the rest of
///   the archive;
/// - is named `__.SYMDEF` in its name field after a header in the BSD form:
///   the `ar` crate passes over such a header and leaves its data unread,
///   so that this walk cannot tell where it goes on.
pub open spec fn advance(archive: Seq<u8>, w: Walk) -> Advance {
    let name = archive.subrange(w.at, w.at + 16);
    let size_text = archive.subrange(w.at + 48, w.at + 58);
    let size = field_value(size_text);
    let room = archive.len() - (w.at + 60);
    let next = w.at + 60 + size + size % 2;
    if !plain_number(size_text) {
        Advance::Refuse
    } else if !w.bsd && name[0] == 47 {
        if blank_from(name, 1) {
            Advance::Go(Walk { at: next, gnu: true, bsd: false, table: w.table })
        } else if name[1] == 47 && blank_from(name, 2) {
            if size > room {
                Advance::Refuse
            } else {
                Advance::Go(Walk { at: next, gnu: true, bsd: false, table: size })
            }
        } else if plain_number(name.subrange(1, 16)) && field_value(name.subrange(1, 16))
            <= w.table {
            Advance::Go(Walk { at: next, gnu: true, bsd: false, table: w.table })
        } else {
            Advance::Refuse
        }
    } else if !w.bsd && ends_with_slash(name) {
        Advance::Go(Walk { at: next, gnu: true, bsd: false, table: w.table })
    } else if w.bsd && name.subrange(0, 9) == symdef() {
        Advance::Refuse
    } else if !w.gnu && name[0] == 35 && name[1] == 49 && name[2] == 47 {
        let length = field_value(name.subrange(3, 16));
        if !plain_number(name.subrange(3, 16)) || length > room {
            Advance::Refuse
        } else if size < length {
            Advance::End
        } else {
            Advance::Go(
                Walk {
                    at: w.at + 60 + size + (size - length) % 2,
                    gnu: false,
                    bsd: true,
                    table: w.table,
                },
            )
        }
    } else {
        Advance::Go(Walk { at: next, gnu: w.gnu, bsd: w.bsd, table: w.table })
    }
}

/// No member header from the place of the walk on has the archive refused.
pub open spec fn plain_from(archive: Seq<u8>, w: Walk) -> bool
    decreases
            (if w.at <= archive.len() {
                archive.len() - w.at
            } else {
                0
            }),
{
    if w.at < 0 || w.at + 60 > archive.len() {
        true
    } else {
        match advance(archive, w) {
            Advance::Refuse => false,
            Advance::End => true,
            Advance::Go(next) => if next.at > w.at {
                plain_from(archive, next)
            } else {
                false
            },
        }
    }
}

/// No member header of `archive` has the archive refused.
pub open spec fn plain_container(archive: Seq<u8>) -> bool {
    plain_from(archive, Walk { at: 8, gnu: false, bsd: false, table: 0 })
}

/// Ten to the power of `n`.
pub open spec fn ten_to(n: nat) -> nat
    decreases n,
{
    if n == 0 {
        1
    } else {
        10 * ten_to((n - 1) as nat)
    }
}

/// The powers of ten grow.
pub proof fn lemma_ten_to_grows(n: nat, m: nat)
    requires
        n <= m,
    ensures
        ten_to(n) <= ten_to(m),
    decreases m,
{
    if n < m {
        lemma_ten_to_grows(n, (m - 1) as nat);
    }
}

/// Reads the number in the `width` bytes from `from` on.
fn read_field(archive: &[u8], from: usize, width: usize) -> (r: Option<u64>)
    requires
        from + width <= archive@.len(),
        width <= 15,
    ensures
        match r {
            Some(value) => plain_number(archive@.subrange(from as int, from + width))
                && value == field_value(archive@.subrange(from as int, from + width)) && value
                < 1_000_000_000_000_000,
            None => !plain_number(archive@.subrange(from as int, from + width)),
        },
{
    let ghost field = archive@.subrange(from as int, from + width);
    let len: usize = archive.len();
    let mut value: u64 = 0;
    let mut n: usize = 0;
    proof {
        reveal_with_fuel(ten_to, 16);
        assert(ten_to(15) == 1_000_000_000_000_000);
    }
    while n < width && 48 <= archive[from + n] && archive[from + n] <= 57
        invariant
            n <= width <= 15,
            from + width <= archive@.len() == len,
            field == archive@.subrange(from as int, from + width),
            forall|i: int| 0 <= i < n ==> is_digit(#[trigger] field[i]),
            value == decimal_value(field.take(n as int)),
            value < ten_to(n as nat),
            ten_to(15) == 1_000_000_000_000_000,
        decreases width - n,
    {
        proof {
            let next = field.take(n + 1);
            assert(next.drop_last() =~= field.take(n as int));
            assert(next.last() == archive@[from + n]);
            lemma_ten_to_grows(n as nat, 14);
            lemma_ten_to_grows((n + 1) as nat, 15);
            assert(ten_to(15) == 10 * ten_to(14));
        }
        value = value * 10 + (archive[from + n] - 48) as u64;
        n += 1;
    }
    proof {
        lemma_digit_run_is(field, n as int);
        lemma_ten_to_grows(n as nat, 15);
    }
    if n == 0 {
        return None;
    }
    let mut i: usize = n;
    while i < width
        invariant
            0 < n <= i <= width,
            from + width <= archive@.len() == len,
            field == archive@.subrange(from as int, from + width),
            digit_run(field) == n,
            value == field_value(field),
            value < 1_000_000_000_000_000,
            forall|j: int| n <= j < i ==> #[trigger] field[j] == 32,
        decreases width - i,
    {
        if archive[from + i] != 32 {
            assert(field[i as int] != 32);
            return None;
        }
        i += 1;
    }
    Some(value)
}

/// Decides whether the name field at `at` holds spaces only from `from` on.
fn is_blank_from(archive: &[u8], at: usize, from: usize) -> (r: bool)
    requires
        at + 16 <= archive@.len(),
        from <= 16,
    ensures
        r == blank_from(archive@.subrange(at as int, at + 16), from as int),
{
    let ghost name = archive@.subrange(at as int, at + 16);
    let len: usize = archive.len();
    let mut i: usize = from;
    while i < 16
        invariant
            from <= i <= 16,
            at + 16 <= archive@.len() == len,
            name == archive@.subrange(at as int, at + 16),
            forall|j: int| from <= j < i ==> #[trigger] name[j] == 32,
        decreases 16 - i,
    {
        if archive[at + i] != 32 {
            assert(name[i as int] != 32);
            return false;
        }
        i += 1;
    }
    true
}

/// Decides whether the name in the name field at `at` ends with `/`.
fn name_ends_with_slash(archive: &[u8], at: usize) -> (r: bool)
    requires
        at + 16 <= archive@.len(),
    ensures
        r == ends_with_slash(archive@.subrange(at as int, at + 16)),
{
    let ghost name = archive@.subrange(at as int, at + 16);
    let len: usize = archive.len();
    let mut k: usize = 16;
    while k > 0 && archive[at + k - 1] == 32
        invariant
            k <= 16,
            at + 16 <= archive@.len() == len,
            name == archive@.subrange(at as int, at + 16),
            forall|j: int| k <= j < 16 ==> #[trigger] name[j] == 32,
        decreases k,
    {
        assert(name[k - 1] == archive@[at + k - 1]);
        k -= 1;
    }
    if k > 0 && archive[at + k - 1] == 47 {
        assert(name[k - 1] == 47 && blank_from(name, k as int));
        true
    } else {
        proof {
            if k > 0 {
                assert(name[k - 1] == archive@[at + k - 1]);
            }
            assert forall|j: int| 0 <= j < name.len() && #[trigger] name[j] == 47 implies !blank_from(
                name,
                j + 1,
            ) by {
                if k > 0 && j < k - 1 {
                    assert(name[k - 1] != 32);
                }
            }
        }
        false
    }
}

/// Decides whether the name field at `at` begins with `__.SYMDEF`.
fn is_symdef(archive: &[u8], at: usize) -> (r: bool)
    requires
        at + 16 <= archive@.len(),
    ensures
        r == (archive@.subrange(at as int, at + 16).subrange(0, 9) == symdef()),
{
    let ghost head = archive@.subrange(at as int, at + 16).subrange(0, 9);
    let r = archive[at] == 95 && archive[at + 1] == 95 && archive[at + 2] == 46 && archive[at + 3]
        == 83 && archive[at + 4] == 89 && archive[at + 5] == 77 && archive[at + 6] == 68
        && archive[at + 7] == 69 && archive[at + 8] == 70;
    proof {
        assert(head[0] == archive@[at as int] && head[1] == archive@[at + 1] && head[2]
            == archive@[at + 2] && head[3] == archive@[at + 3] && head[4] == archive@[at + 4]
            && head[5] == archive@[at + 5] && head[6] == archive@[at + 6] && head[7]
            == archive@[at + 7] && head[8] == archive@[at + 8]);
        if r {
            assert(head =~= symdef());
        }
    }
    r
}

/// Decides whether no member header of `archive` has the archive refused.
pub fn is_plain(archive: &[u8]) -> (r: bool)
    ensures
        r == plain_container(archive@),
{
    let len: usize = archive.len();
    let mut at: usize = 8;
    let mut gnu = false;
    let mut bsd = false;
    let mut table: u64 = 0;
    while len >= 60 && at <= len - 60
        invariant
            8 <= at,
            len == archive@.len(),
            plain_container(archive@) == plain_from(
                archive@,
                Walk { at: at as int, gnu, bsd, table: table as nat },
            ),
        decreases len - at,
    {
        let ghost w = Walk { at: at as int, gnu, bsd, table: table as nat };
        let ghost name = archive@.subrange(at as int, at + 16);
        proof {
            assert(name[0] == archive@[at as int] && name[1] == archive@[at + 1] && name[2]
                == archive@[at + 2]);
            assert(name.subrange(1, 16) =~= archive@.subrange(at + 1, at + 16));
            assert(name.subrange(3, 16) =~= archive@.subrange(at + 3, at + 16));
        }
        let size = match read_field(archive, at + 48, 10) {
            None => { return false; },
            Some(size) => size,
        };
        let room: usize = len - at - 60;
        let mut padded: u64 = size + size % 2;
        if !bsd && archive[at] == 47 {
            if is_blank_from(archive, at, 1) {
            } else if archive[at + 1] == 47 && is_blank_from(archive, at, 2) {
                if size > room as u64 {
                    return false;
                }
                table = size;
            } else {
                match read_field(archive, at + 1, 15) {
                    None => { return false; },
                    Some(reference) => {
                        if reference > table {
                            return false;
                        }
                    },
                }
            }
            gnu = true;
        } else if !bsd && name_ends_with_slash(archive, at) {
            gnu = true;
        } else if bsd && is_symdef(archive, at) {
            return false;
        } else if !gnu && archive[at] == 35 && archive[at + 1] == 49 && archive[at + 2] == 47 {
            match read_field(archive, at + 3, 13) {
                None => { return false; },
                Some(length) => {
                    if length > room as u64 {
                        return false;
                    }
                    if size < length {
                        return true;
                    }
                    bsd = true;
                    padded = size + (size - length) % 2;
                },
            }
        }
        let ghost next = Walk { at: at + 60 + padded, gnu, bsd, table: table as nat };
        assert(advance(archive@, w) == Advance::Go(next));
        if padded > room as u64 {
            assert(plain_from(archive@, next));
            return true;
        }
        at = at + 60 + padded as usize;
    }
    true
}

// ---------------------------------------------------------------------------
// Reading the members
// ---------------------------------------------------------------------------

/// What the `ar` crate reads from an archive: the name and the data of each
/// member, in file order, up to the end of the archive or to the first member
/// that it cannot read; and whether it stopped at such a member.
pub uninterp spec fn ar_members(archive: Seq<u8>) -> (Seq<(Seq<u8>, Seq<u8>)>, bool);

/// The names and data of `members` as plain values.
pub open spec fn members_view(members: Seq<Member>) -> Seq<(Seq<u8>, Seq<u8>)> {
    members.map_values(|m: Member| (m.name@, m.data@))
}

/// Walks the archive with `ar::Archive::next_entry` and copies out the
/// identifier and the data of each entry until the walk ends or an entry
/// fails. The contract names the outcome `ar_members` and says nothing else
/// of it. The archive must have passed the walk over its member headers: on
/// a reference to a name behind the end of the table of names the crate
/// indexes out of bounds, and for a table of names or a long name it sets
/// the announced length aside before it reads.
#[verifier::external_body]
fn read_members(archive: &[u8]) -> (r: (Vec<Member>, bool))
    requires
        plain_container(archive@),
    ensures
        (members_view(r.0@), r.1) == ar_members(archive@),
{
    let mut reader = ar::Archive::new(archive);
    let mut members = Vec::new();
    while let Some(next) = reader.next_entry() {
        let Ok(mut entry) = next else { return (members, true) };
        let mut data = Vec::new();
        if entry.read_to_end(&mut data).is_err() {
            return (members, true);
        }
        members.push(Member { name: entry.header().identifier().to_vec(), data });
    }
    (members, false)
}

/// The members of a container as plain values: each name with the data, and
/// the fault that ended the reading.
pub struct ContainerView {
    pub entries: Seq<(Seq<char>, Seq<u8>)>,
    pub fault: Option<ContainerFault>,
}

/// The names and data of `entries` as plain values.
pub open spec fn entries_view(entries: Seq<Entry>) -> Seq<(Seq<char>, Seq<u8>)> {
    entries.map_values(|e: Entry| (e.name@, e.data@))
}

impl View for Container {
    type V = ContainerView;

    open spec fn view(&self) -> ContainerView {
        ContainerView { entries: entries_view(self.entries@), fault: self.fault }
    }
}

/// The number of members at the head of `members` whose names are UTF-8.
pub open spec fn named_run(members: Seq<(Seq<u8>, Seq<u8>)>) -> nat
    decreases members.len(),
{
    if members.len() > 0 && valid_utf8(members[0].0) {
        1 + named_run(members.drop_first())
    } else {
        0
    }
}

/// What can be read of `members`: the members in front of the first one whose
/// name is not UTF-8, each with its name as text; the fault is that name, or
/// else the failure that ended the walk, if there was one.
pub open spec fn spec_from_members(
    members: Seq<(Seq<u8>, Seq<u8>)>,
    failed: bool,
) -> ContainerView {
    let n = named_run(members);
    ContainerView {
        entries: Seq::new(n, |i: int| (decode_utf8(members[i].0), members[i].1)),
        fault: if n < members.len() {
            Some(ContainerFault::EntryName)
        } else if failed {
            Some(ContainerFault::Malformed)
        } else {
            None
        },
    }
}

/// What can be read of `archive`: nothing of an archive that the walk over its
/// member headers refuses, and else what the `ar` crate reads.
pub open spec fn spec_read(archive: Seq<u8>) -> ContainerView {
    if plain_container(archive) {
        spec_from_members(ar_members(archive).0, ar_members(archive).1)
    } else {
        ContainerView { entries: Seq::empty(), fault: Some(ContainerFault::Unsupported) }
    }
}

/// A run of `n` members with UTF-8 names that ends at the end of `members` or
/// before a name that is not UTF-8 is the whole such run.
pub proof fn lemma_named_run_is(members: Seq<(Seq<u8>, Seq<u8>)>, n: int)
    requires
        0 <= n <= members.len(),
        forall|i: int| 0 <= i < n ==> valid_utf8((#[trigger] members[i]).0),
        n == members.len() || !valid_utf8(members[n].0),
    ensures
        named_run(members) == n,
    decreases n,
{
    if n > 0 {
        let rest = members.drop_first();
        assert forall|i: int| 0 <= i < n - 1 implies valid_utf8((#[trigger] rest[i]).0) by {
            assert(rest[i] == members[i + 1]);
        }
        if n < members.len() {
            assert(rest[n - 1] == members[n]);
        }
        lemma_named_run_is(rest, n - 1);
    }
}

impl Container {
    /// Gives the members their names as text, up to the first name that is
    /// none.
    pub fn from_members(members: Vec<Member>, failed: bool) -> (c: Container)
        ensures
            c@ == spec_from_members(members_view(members@), failed),
    {
        let ghost all = members_view(members@);
        let mut entries: Vec<Entry> = Vec::new();
        let mut i: usize = 0;
        while i < members.len()
            invariant
                i <= members.len(),
                all == members_view(members@),
                entries@.len() == i,
                forall|j: int|
                    0 <= j < i ==> {
                        &&& valid_utf8((#[trigger] all[j]).0)
                        &&& entries@[j].name@ == decode_utf8(all[j].0)
                        &&& entries@[j].data@ == all[j].1
                    },
            decreases members.len() - i,
        {
            assert(all[i as int] == (members@[i as int].name@, members@[i as int].data@));
            match utf8_text(members[i].name.as_slice()) {
                None => {
                    proof {
                        lemma_named_run_is(all, i as int);
                    }
                    let c = Container { entries, fault: Some(ContainerFault::EntryName) };
                    assert(c@.entries =~= spec_from_members(all, failed).entries);
                    return c;
                },
                Some(name) => {
                    entries.push(Entry { name: name.to_owned(), data: members[i].data.clone() });
                },
            }
            i += 1;
        }
        proof {
            lemma_named_run_is(all, i as int);
        }
        let c = Container {
            entries,
            fault: if failed {
                Some(ContainerFault::Malformed)
            } else {
                None
            },
        };
        assert(c@.entries =~= spec_from_members(all, failed).entries);
        c
    }

    /// Reads the members of an archive.
    pub fn read(archive: &[u8]) -> (c: Container)
        ensures
            c@ == spec_read(archive@),
    {
        if !is_plain(archive) {
            let c = Container { entries: Vec::new(), fault: Some(ContainerFault::Unsupported) };
            assert(c@.entries =~= Seq::empty());
            return c;
        }
        let (members, failed) = read_members(archive);
        Container::from_members(members, failed)
    }
}

} // verus!
