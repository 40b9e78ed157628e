use vstd::prelude::*;

use crate::order::{
    is_sort_witness, is_stable_sort, item_key, key_less, lemma_sort_drop_keys, lemma_str_less_irreflexive,
    lemma_str_less_total, stable_sort, str_less, SortKey,
};
use crate::text::{join, join_strings, lowercase, push_str, texts, to_chars, to_lowercase};
use crate::utils::conversion::{bytes_to_human_readable, human_bytes};

verus! {

#[derive(Debug, Clone, PartialEq, Eq)]
pub struct DirectoryEntry {
    pub name: String,
    pub is_file: bool,
    pub size: Option<u64>,
}

/// Directories sort before files; within each, names compare in lowercase.
pub open spec fn listing_key(e: DirectoryEntry) -> (u8, Seq<char>) {
    (if e.is_file {
        1u8
    } else {
        0u8
    }, lowercase(e.name@))
}

/// Sort files: directories first, then files, both alphabetically
/// (case-insensitive); entries that compare equal keep their order.
pub fn sort_directory_entries(entries: Vec<DirectoryEntry>) -> (r: Vec<DirectoryEntry>)
    ensures
        is_stable_sort(entries@, r@, |e: DirectoryEntry| listing_key(e)),
{
    let ghost inp = entries@;
    let ghost key = |e: DirectoryEntry| listing_key(e);
    let mut keyed: Vec<(SortKey, DirectoryEntry)> = Vec::new();
    let mut rest = entries;
    let n = rest.len();
    let mut i: usize = 0;
    while i < n
        invariant
            n == inp.len(),
            i <= n,
            rest@ == inp.skip(i as int),
            keyed@.len() == i,
            key == (|e: DirectoryEntry| listing_key(e)),
            forall|k: int| 0 <= k < i ==> (#[trigger] keyed@[k]).1 == inp[k],
            forall|k: int| 0 <= k < i ==> key(#[trigger] inp[k]) == keyed@[k].0@,
        decreases n - i,
    {
        let e = rest.remove(0);
        assert(inp.skip(i as int)[0] == inp[i as int]);
        assert(inp.skip(i as int).remove(0) == inp.skip(i + 1));
        let lower = to_lowercase(e.name.as_str());
        let key_e = SortKey { rank: if e.is_file { 1 } else { 0 }, text: to_chars(lower.as_str()) };
        keyed.push((key_e, e));
        i = i + 1;
    }
    let ghost keyed_in = keyed@;
    let sorted = stable_sort(keyed);
    let ghost keyed_out = sorted@;
    let mut r: Vec<DirectoryEntry> = Vec::new();
    let mut rest2 = sorted;
    let m = rest2.len();
    let mut j: usize = 0;
    while j < m
        invariant
            m == keyed_out.len(),
            j <= m,
            rest2@ == keyed_out.skip(j as int),
            r@.len() == j,
            forall|k: int| 0 <= k < j ==> #[trigger] r@[k] == keyed_out[k].1,
        decreases m - j,
    {
        let (_, e) = rest2.remove(0);
        assert(keyed_out.skip(j as int)[0] == keyed_out[j as int]);
        assert(keyed_out.skip(j as int).remove(0) == keyed_out.skip(j + 1));
        r.push(e);
        j = j + 1;
    }
    proof {
        assert(keyed_out.len() == keyed_in.len()) by {
            let kf = |x: (SortKey, DirectoryEntry)| item_key(x);
            let p = choose|p: Seq<int>| crate::order::is_sort_witness(keyed_in, keyed_out, kf, p);
        }
        lemma_sort_drop_keys(keyed_in, keyed_out, inp, r@, key);
    }
    r
}

/// One line of a listing: the name, a trailing slash for directories, and
/// the human-readable size when it is known.
pub open spec fn listing_line(e: DirectoryEntry) -> Seq<char> {
    e.name@ + (if e.is_file {
        Seq::empty()
    } else {
        "/"@
    }) + match e.size {
        Some(n) => " ["@ + human_bytes(n as nat) + "]"@,
        None => Seq::empty(),
    }
}

/// The lines of a listing.
pub open spec fn listing_lines(entries: Seq<DirectoryEntry>) -> Seq<Seq<char>> {
    entries.map_values(|e: DirectoryEntry| listing_line(e))
}

/// The listing as text: one line per entry (see `listing_line`), joined by
/// newlines.
pub fn prettify_directory_listing(entries: &[DirectoryEntry]) -> (s: String)
    ensures
        s@ == join(listing_lines(entries@), "\n"@),
{
    let mut lines: Vec<String> = Vec::new();
    let mut i: usize = 0;
    while i < entries.len()
        invariant
            i <= entries.len(),
            lines@.len() == i,
            forall|k: int| 0 <= k < i ==> (#[trigger] lines@[k])@ == listing_line(entries@[k]),
        decreases entries.len() - i,
    {
        let e = &entries[i];
        let mut line = e.name.clone();
        if !e.is_file {
            push_str(&mut line, "/");
        }
        if let Some(size) = e.size {
            push_str(&mut line, " [");
            let h = bytes_to_human_readable(size);
            push_str(&mut line, h.as_str());
            push_str(&mut line, "]");
        }
        lines.push(line);
        i = i + 1;
    }
    assert(texts(lines@) == listing_lines(entries@));
    join_strings(&lines, "\n")
}

/// What a sorted listing looks like: directories come before files, and
/// two entries of the same kind are in case-insensitive order (the later
/// one's lowercased name never sorts before the earlier one's), and the
/// listing has as many entries as the input.
pub proof fn lemma_listing_order(entries: Seq<DirectoryEntry>, r: Seq<DirectoryEntry>)
    requires
        is_stable_sort(entries, r, |e: DirectoryEntry| listing_key(e)),
    ensures
        r.len() == entries.len(),
        forall|i: int, j: int|
            0 <= i < j < r.len() ==> (#[trigger] r[i].is_file ==> #[trigger] r[j].is_file),
        forall|i: int, j: int|
            0 <= i < j < r.len() && #[trigger] r[i].is_file == #[trigger] r[j].is_file ==> !str_less(
                lowercase(r[j].name@),
                lowercase(r[i].name@),
            ),
{
    let key = |e: DirectoryEntry| listing_key(e);
    let p = choose|p: Seq<int>| is_sort_witness(entries, r, key, p);
    assert forall|i: int, j: int| 0 <= i < j < r.len() implies (#[trigger] r[i].is_file
        ==> #[trigger] r[j].is_file) && (r[i].is_file == r[j].is_file ==> !str_less(
        lowercase(r[j].name@),
        lowercase(r[i].name@),
    )) by {
        assert(key_less(key(r[i]), key(r[j])) || key(r[i]) == key(r[j]));
        lemma_str_less_total(lowercase(r[i].name@), lowercase(r[j].name@));
        lemma_str_less_irreflexive(lowercase(r[i].name@));
    }
}

} // verus!
