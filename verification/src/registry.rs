//! The registry interface the core depends on: an ordered list of shared
//! paths with their sizes, re-read at every use.  The on-disk persistence of
//! that list lives outside the library; these are the pure operations on it:
//! editing the path list, resolving a path to its size, rendering the `list`
//! response, and picking a line of it by its 0-based index, which is the
//! client-facing file identifier.

use vstd::prelude::*;
use vstd::string::StringExecFns;
use vstd::utf8::encode_utf8;

verus! {

/// One shared file: its absolute path and its size at the time of the
/// query.  Derived on demand and never cached, so sizes stay fresh.
#[derive(Debug)]
pub struct SharedFileEntry {
    pub path: String,
    pub size: u64,
}

/// Looks a path up in a registry snapshot: the size of the first entry with
/// that path, or `None` when no entry has it.  This is the pure half of the
/// registry's `stat`; the caller supplies the snapshot.
pub fn stat_of(entries: &Vec<SharedFileEntry>, path: &String) -> (r: Option<u64>)
    ensures
        r is Some <==> exists|j: int| 0 <= j < entries@.len() && entries@[j].path@ == path@,
        r matches Some(size) ==> exists|j: int|
            0 <= j < entries@.len() && entries@[j].path@ == path@ && entries@[j].size == size
                && (forall|k: int| 0 <= k < j ==> entries@[k].path@ != path@),
{
    let n = entries.len();
    let mut i: usize = 0;
    while i < n
        invariant
            n == entries@.len(),
            i <= n,
            forall|k: int| 0 <= k < i ==> entries@[k].path@ != path@,
        decreases n - i,
    {
        if entries[i].path.eq(path) {
            return Some(entries[i].size);
        }
        i = i + 1;
    }
    None
}

/// The paths of a registry snapshot, in registry order.
pub fn paths_of(entries: &Vec<SharedFileEntry>) -> (r: Vec<String>)
    ensures
        r@.len() == entries@.len(),
        forall|i: int| 0 <= i < r@.len() ==> r@[i]@ == entries@[i].path@,
{
    let mut r: Vec<String> = Vec::new();
    let n = entries.len();
    let mut i: usize = 0;
    while i < n
        invariant
            n == entries@.len(),
            i <= n,
            r@.len() == i,
            forall|j: int| 0 <= j < i ==> r@[j]@ == entries@[j].path@,
        decreases n - i,
    {
        r.push(entries[i].path.clone());
        i = i + 1;
    }
    r
}

/// The text of each path in a list of paths.
pub open spec fn path_views(paths: Seq<String>) -> Seq<Seq<char>> {
    Seq::new(paths.len(), |i: int| paths[i]@)
}

/// The `list` response for these paths: their UTF-8 bytes joined by
/// newlines, the final entry unterminated.
pub open spec fn spec_render_list(paths: Seq<Seq<char>>) -> Seq<u8>
    decreases paths.len(),
{
    if paths.len() == 0 {
        Seq::empty()
    } else if paths.len() == 1 {
        encode_utf8(paths[0])
    } else {
        encode_utf8(paths[0]) + seq![10u8] + spec_render_list(paths.drop_first())
    }
}

/// Rendering one more path appends a separator (unless the list was empty)
/// and the path's bytes.
pub proof fn lemma_render_snoc(paths: Seq<Seq<char>>, x: Seq<char>)
    ensures
        spec_render_list(paths.push(x)) == if paths.len() == 0 {
            encode_utf8(x)
        } else {
            spec_render_list(paths) + seq![10u8] + encode_utf8(x)
        },
    decreases paths.len(),
{
    if paths.len() == 0 {
        assert(paths.push(x)[0] == x);
    } else if paths.len() == 1 {
        assert(paths.push(x).drop_first() =~~= seq![x]);
        assert(paths.push(x)[0] == paths[0]);
        assert(spec_render_list(seq![x]) == encode_utf8(x));
        assert(spec_render_list(paths.push(x)) == encode_utf8(paths[0]) + seq![10u8]
            + encode_utf8(x));
    } else {
        assert(paths.push(x).drop_first() =~~= paths.drop_first().push(x));
        lemma_render_snoc(paths.drop_first(), x);
        assert(encode_utf8(paths[0]) + seq![10u8] + (spec_render_list(paths.drop_first())
            + seq![10u8] + encode_utf8(x)) =~= (encode_utf8(paths[0]) + seq![10u8]
            + spec_render_list(paths.drop_first())) + seq![10u8] + encode_utf8(x));
    }
}

/// Renders the `list` response for a registry snapshot: one shared path
/// per line, newline-separated, the final entry unterminated, in registry
/// order.
pub fn render_list(paths: &Vec<String>) -> (r: Vec<u8>)
    ensures
        r@ == spec_render_list(path_views(paths@)),
{
    let mut r: Vec<u8> = Vec::new();
    let n = paths.len();
    let mut i: usize = 0;
    while i < n
        invariant
            n == paths@.len(),
            i <= n,
            r@ == spec_render_list(path_views(paths@).take(i as int)),
        decreases n - i,
    {
        if i > 0 {
            r.push(10);
        }
        r.extend_from_slice(paths[i].as_str().as_bytes());
        proof {
            let views = path_views(paths@);
            lemma_render_snoc(views.take(i as int), paths@[i as int]@);
            assert(views.take(i as int).push(paths@[i as int]@) =~~= views.take(i as int + 1));
        }
        i = i + 1;
    }
    proof {
        assert(path_views(paths@).take(n as int) =~~= path_views(paths@));
    }
    r
}

/// The lines of a `list` response, splitting at every newline: an empty
/// response is one empty line, and each further newline opens a new line.
pub open spec fn split_lines(s: Seq<u8>) -> Seq<Seq<u8>>
    decreases s.len(),
{
    if s.len() == 0 {
        seq![Seq::<u8>::empty()]
    } else if s[0] == 10 {
        seq![Seq::<u8>::empty()] + split_lines(s.drop_first())
    } else {
        seq![seq![s[0]] + split_lines(s.drop_first())[0]] + split_lines(s.drop_first()).drop_first()
    }
}

/// A split always yields at least one line.
pub proof fn lemma_split_nonempty(s: Seq<u8>)
    ensures
        split_lines(s).len() >= 1,
    decreases s.len(),
{
    if s.len() > 0 {
        lemma_split_nonempty(s.drop_first());
    }
}

/// Reading one more byte either opens a new empty line (on a newline) or
/// extends the last line.
pub proof fn lemma_split_snoc(s: Seq<u8>, c: u8)
    ensures
        split_lines(s.push(c)) == if c == 10 {
            split_lines(s).push(Seq::<u8>::empty())
        } else {
            split_lines(s).drop_last().push(split_lines(s).last().push(c))
        },
    decreases s.len(),
{
    lemma_split_nonempty(s);
    if s.len() == 0 {
        assert(split_lines(Seq::<u8>::empty()) =~~= seq![Seq::<u8>::empty()]);
        if c == 10 {
            assert(s.push(c)[0] == 10);
            assert(s.push(c).drop_first() =~= Seq::<u8>::empty());
            assert(split_lines(s.push(c)) == seq![Seq::<u8>::empty()] + split_lines(
                Seq::<u8>::empty(),
            ));
            assert(split_lines(s.push(c)) =~~= split_lines(s).push(Seq::<u8>::empty()));
        } else {
            assert(s.push(c)[0] == c);
            assert(s.push(c).drop_first() =~= Seq::<u8>::empty());
            assert(split_lines(s.push(c)) == seq![seq![c] + split_lines(Seq::<u8>::empty())[0]]
                + split_lines(Seq::<u8>::empty()).drop_first());
            assert(split_lines(s.push(c)) =~~= split_lines(s).drop_last().push(
                split_lines(s).last().push(c),
            ));
        }
    } else {
        assert(s.push(c)[0] == s[0]);
        assert(s.push(c).drop_first() =~= s.drop_first().push(c));
        lemma_split_snoc(s.drop_first(), c);
        lemma_split_nonempty(s.drop_first());
        if c == 10 {
            assert(split_lines(s.push(c)) =~~= split_lines(s).push(Seq::<u8>::empty()));
        } else {
            assert(split_lines(s.push(c)) =~~= split_lines(s).drop_last().push(
                split_lines(s).last().push(c),
            ));
        }
    }
}

/// The text of each line in a list of lines.
pub open spec fn byte_views(lines: Seq<Vec<u8>>) -> Seq<Seq<u8>> {
    Seq::new(lines.len(), |i: int| lines[i]@)
}

/// Splits a `list` response into its lines.
pub fn split_lines_bytes(s: &[u8]) -> (lines: Vec<Vec<u8>>)
    ensures
        byte_views(lines@) == split_lines(s@),
{
    let mut completed: Vec<Vec<u8>> = Vec::new();
    let mut current: Vec<u8> = Vec::new();
    let n = s.len();
    let mut i: usize = 0;
    proof {
        assert(byte_views(completed@).push(current@) =~~= split_lines(s@.take(0)));
    }
    while i < n
        invariant
            n == s@.len(),
            i <= n,
            byte_views(completed@).push(current@) == split_lines(s@.take(i as int)),
        decreases n - i,
    {
        let b = s[i];
        proof {
            lemma_split_snoc(s@.take(i as int), s@[i as int]);
            assert(s@.take(i as int).push(s@[i as int]) =~= s@.take(i as int + 1));
        }
        if b == 10 {
            completed.push(current);
            current = Vec::new();
            proof {
                assert(byte_views(completed@).push(current@) =~~= split_lines(
                    s@.take(i as int),
                ).push(Seq::<u8>::empty()));
            }
        } else {
            let ghost prev = byte_views(completed@).push(current@);
            current.push(b);
            proof {
                assert(prev.drop_last() =~~= byte_views(completed@));
                assert(byte_views(completed@).push(current@) =~~= split_lines(
                    s@.take(i as int),
                ).drop_last().push(split_lines(s@.take(i as int)).last().push(s@[i as int])));
            }
        }
        i = i + 1;
    }
    completed.push(current);
    proof {
        assert(s@.take(n as int) =~= s@);
        assert(byte_views(completed@) =~~= split_lines(s@));
    }
    completed
}

/// Picks the line with the given 0-based index out of a `list` response —
/// the index is the client-facing file identifier.  Returns `None` exactly
/// when the listing has no such line.
pub fn nth_line(listing: &[u8], index: usize) -> (r: Option<Vec<u8>>)
    ensures
        r is Some <==> index < split_lines(listing@).len(),
        r matches Some(v) ==> v@ == split_lines(listing@)[index as int],
{
    let mut lines = split_lines_bytes(listing);
    if index < lines.len() {
        let ghost before = lines@;
        let line = lines.remove(index);
        proof {
            assert(line@ == byte_views(before)[index as int]);
        }
        Some(line)
    } else {
        None
    }
}

/// Adds a path to the shared list.  The list is otherwise unchanged: every
/// prior entry keeps its position.
pub fn share_file(files: &mut Vec<String>, path: &str) -> (added: bool)
    ensures
        added,
        final (files)@.len() == old(files)@.len() + 1,
        forall|i: int| 0 <= i < old(files)@.len() ==> final (files)@[i] == old(files)@[i],
        final (files)@.last()@ == path@,
{
    files.push(path.to_owned());
    true
}

/// Removes the path with the given index from the shared list, shifting
/// the entries after it down by one.  An index past the end is left out by
/// the precondition: the caller resolves user input against the list first.
pub fn unshare_file(files: &mut Vec<String>, index: usize) -> (removed: String)
    requires
        index < old(files)@.len(),
    ensures
        removed == old(files)@[index as int],
        final (files)@ == old(files)@.remove(index as int),
{
    files.remove(index)
}

/// The name of the file that persists the shared list, under the
/// configuration directory.
pub fn get_shared_files_path(config_dir: &str) -> (r: String)
    ensures
        r@ == config_dir@ + "/shared.txt"@,
{
    let mut r = config_dir.to_owned();
    r.append("/shared.txt");
    r
}

/// The name of the file that persists the listening port, under the
/// configuration directory.
pub fn get_port_path(config_dir: &str) -> (r: String)
    ensures
        r@ == config_dir@ + "/port.txt"@,
{
    let mut r = config_dir.to_owned();
    r.append("/port.txt");
    r
}

} // verus!
