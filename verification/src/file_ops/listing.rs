//! Directory listings and the overwrite guard of `write_file`.

use vstd::prelude::*;
use crate::errors::{CoreError, CoreResult};
use crate::search_ops::EntryKind;

verus! {

/// The immediate contents of a directory, by kind, each in the order the
/// directory was read.
#[derive(Debug)]
pub struct DirectoryListing {
    pub files: Vec<String>,
    pub directories: Vec<String>,
    pub links: Vec<String>,
}

/// Which list an entry of `kind` goes to: 0 for files (and anything that
/// is neither a link nor a directory), 1 for directories, 2 for links.
pub open spec fn list_of(kind: EntryKind) -> nat {
    match kind {
        EntryKind::Symlink => 2,
        EntryKind::Directory => 1,
        _ => 0,
    }
}

/// The names of the entries that go to list `which`, in order.
pub open spec fn names_in_list(entries: Seq<(String, EntryKind)>, which: nat) -> Seq<Seq<char>>
    decreases entries.len(),
{
    if entries.len() == 0 {
        Seq::empty()
    } else {
        let rest = names_in_list(entries.drop_last(), which);
        if list_of(entries.last().1) == which {
            rest.push(entries.last().0@)
        } else {
            rest
        }
    }
}

/// The plain view of a list of names.
pub open spec fn names_view(v: Seq<String>) -> Seq<Seq<char>> {
    v.map_values(|s: String| s@)
}

/// Splits directory entries (name and kind) into files, directories and
/// links, keeping their order.
pub fn classify_entries(entries: Vec<(String, EntryKind)>) -> (r: DirectoryListing)
    ensures
        names_view(r.files@) == names_in_list(entries@, 0),
        names_view(r.directories@) == names_in_list(entries@, 1),
        names_view(r.links@) == names_in_list(entries@, 2),
{
    let ghost ev = entries@;
    let mut files: Vec<String> = Vec::new();
    let mut directories: Vec<String> = Vec::new();
    let mut links: Vec<String> = Vec::new();
    let mut i: usize = 0;
    while i < entries.len()
        invariant
            i <= ev.len(),
            ev == entries@,
            names_view(files@) == names_in_list(ev.take(i as int), 0),
            names_view(directories@) == names_in_list(ev.take(i as int), 1),
            names_view(links@) == names_in_list(ev.take(i as int), 2),
        decreases entries.len() - i,
    {
        assert(ev.take(i + 1).drop_last() == ev.take(i as int));
        let name = String::from_str(entries[i].0.as_str());
        match entries[i].1 {
            EntryKind::Symlink => {
                let ghost before = names_view(links@);
                links.push(name);
                assert(names_view(links@) == before.push(name@));
            },
            EntryKind::Directory => {
                let ghost before = names_view(directories@);
                directories.push(name);
                assert(names_view(directories@) == before.push(name@));
            },
            _ => {
                let ghost before = names_view(files@);
                files.push(name);
                assert(names_view(files@) == before.push(name@));
            },
        }
        i = i + 1;
    }
    assert(ev.take(ev.len() as int) == ev);
    DirectoryListing { files, directories, links }
}

/// Every entry lands in exactly one list: together the lists hold as many
/// names as there were entries.
pub proof fn law_every_entry_is_listed_once(entries: Seq<(String, EntryKind)>)
    ensures
        names_in_list(entries, 0).len() + names_in_list(entries, 1).len() + names_in_list(
            entries,
            2,
        ).len() == entries.len(),
    decreases entries.len(),
{
    if entries.len() > 0 {
        law_every_entry_is_listed_once(entries.drop_last());
    }
}

/// Writing `path` is refused when something exists there and overwriting
/// was not asked for.
pub open spec fn write_refused(exists: bool, overwrite: Option<bool>) -> bool {
    exists && overwrite != Some(true)
}

/// The message of a refused write.
pub open spec fn write_refused_text(path: Seq<char>) -> Seq<char> {
    "'"@ + path
        + "' already exists — pass overwrite: true to replace it, or use edit_file for a targeted change"@
}

/// The overwrite guard of `write_file`: refuses to replace an existing
/// file unless `overwrite` is `Some(true)`.
pub fn write_guard(path: &str, exists: bool, overwrite: Option<bool>) -> (r: CoreResult<()>)
    ensures
        r is Err <==> write_refused(exists, overwrite),
        r is Err ==> (r matches Err(CoreError::File(m)) && m@ == write_refused_text(path@)),
{
    let allowed = match overwrite {
        Some(b) => b,
        None => false,
    };
    if exists && !allowed {
        let mut m = String::from_str("'");
        m.append(path);
        m.append(
            "' already exists — pass overwrite: true to replace it, or use edit_file for a targeted change",
        );
        return Err(CoreError::File(m));
    }
    Ok(())
}

/// Each entry lands in the list of its kind, whatever its name: the files
/// list holds, in order, the names of exactly the entries that are neither
/// directories nor links; the directories list those of the directories;
/// the links list those of the links.
pub proof fn law_entries_land_in_the_list_of_their_kind(entries: Seq<(String, EntryKind)>)
    ensures
        names_in_list(entries, 0) == entries.filter(
            |e: (String, EntryKind)| e.1 != EntryKind::Directory && e.1 != EntryKind::Symlink,
        ).map_values(|e: (String, EntryKind)| e.0@),
        names_in_list(entries, 1) == entries.filter(
            |e: (String, EntryKind)| e.1 == EntryKind::Directory,
        ).map_values(|e: (String, EntryKind)| e.0@),
        names_in_list(entries, 2) == entries.filter(|e: (String, EntryKind)| e.1 == EntryKind::Symlink).map_values(
            |e: (String, EntryKind)| e.0@,
        ),
    decreases entries.len(),
{
    reveal(Seq::filter);
    if entries.len() > 0 {
        let d = entries.drop_last();
        law_entries_land_in_the_list_of_their_kind(d);
        let nm = |e: (String, EntryKind)| e.0@;
        let p0 = |e: (String, EntryKind)| e.1 != EntryKind::Directory && e.1 != EntryKind::Symlink;
        let p1 = |e: (String, EntryKind)| e.1 == EntryKind::Directory;
        let p2 = |e: (String, EntryKind)| e.1 == EntryKind::Symlink;
        let x = entries.last();
        assert(d.filter(p0).push(x).map_values(nm) =~= d.filter(p0).map_values(nm).push(x.0@));
        assert(d.filter(p1).push(x).map_values(nm) =~= d.filter(p1).map_values(nm).push(x.0@));
        assert(d.filter(p2).push(x).map_values(nm) =~= d.filter(p2).map_values(nm).push(x.0@));
        assert(entries.filter(p0) == if p0(x) { d.filter(p0).push(x) } else { d.filter(p0) });
        assert(entries.filter(p1) == if p1(x) { d.filter(p1).push(x) } else { d.filter(p1) });
        assert(entries.filter(p2) == if p2(x) { d.filter(p2).push(x) } else { d.filter(p2) });
    } else {
        assert(entries.filter(|e: (String, EntryKind)| e.1 != EntryKind::Directory && e.1 != EntryKind::Symlink)
            .map_values(|e: (String, EntryKind)| e.0@) =~= Seq::<Seq<char>>::empty());
        assert(entries.filter(|e: (String, EntryKind)| e.1 == EntryKind::Directory).map_values(
            |e: (String, EntryKind)| e.0@,
        ) =~= Seq::<Seq<char>>::empty());
        assert(entries.filter(|e: (String, EntryKind)| e.1 == EntryKind::Symlink).map_values(
            |e: (String, EntryKind)| e.0@,
        ) =~= Seq::<Seq<char>>::empty());
    }
}

} // verus!
