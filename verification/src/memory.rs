//! Project memory: the Markdown files of a project's `memory` directory,
//! organised as the `MEMORY.md` index, the entries it links to, and the
//! remaining (orphan) files.

use vstd::prelude::*;

use crate::lex::{chars_lt, lemma_lex_irreflexive, lemma_lex_total, lemma_lex_transitive, lex_lt, strictly_sorted};
use crate::paths::{local_markdown_name, validate_memory_file_name};
use crate::text::{
    ascii_lower, chars_of, find_char_from, find_from, is_whitespace, lead_ws, lemma_lead_ws_bound, opt_view,
    slice_range, str_eq, string_from_chars, strings_contain, strs_view, to_ascii_lower, trim,
    trim_start, trimmed_range,
};

verus! {

/// Role of one memory file.
#[derive(Debug, Clone, Copy, PartialEq, Eq, Structural)]
pub enum MemoryLayerKind {
    Index,
    Entry,
    Orphan,
}

/// One memory file with its display title and optional one-line hook.
#[derive(Debug)]
pub struct MemoryLayer {
    pub file: String,
    pub title: String,
    pub hook: Option<String>,
    pub kind: MemoryLayerKind,
}

/// Mathematical reading of a [`MemoryLayer`].
pub struct MemoryLayerView {
    pub file: Seq<char>,
    pub title: Seq<char>,
    pub hook: Option<Seq<char>>,
    pub kind: MemoryLayerKind,
}

impl View for MemoryLayer {
    type V = MemoryLayerView;

    open spec fn view(&self) -> MemoryLayerView {
        MemoryLayerView { file: self.file@, title: self.title@, hook: opt_view(self.hook), kind: self.kind }
    }
}

/// Views of a sequence of layers.
pub open spec fn layers_view(v: Seq<MemoryLayer>) -> Seq<MemoryLayerView> {
    v.map_values(|l: MemoryLayer| l@)
}

/// All memory of one project.
#[derive(Debug)]
pub struct ProjectMemory {
    pub project_id: String,
    pub has_memory: bool,
    pub count: usize,
    pub default_file: Option<String>,
    pub layers: Vec<MemoryLayer>,
}

/// File of the first index layer, if any.
pub open spec fn first_index_file(ls: Seq<MemoryLayerView>) -> Option<Seq<char>>
    decreases ls.len(),
{
    if ls.len() == 0 {
        None
    } else if ls[0].kind == MemoryLayerKind::Index {
        Some(ls[0].file)
    } else {
        first_index_file(ls.drop_first())
    }
}

/// The file shown first: the index if there is one, else the first layer.
pub open spec fn default_file_of(ls: Seq<MemoryLayerView>) -> Option<Seq<char>> {
    match first_index_file(ls) {
        Some(f) => Some(f),
        None => if ls.len() > 0 {
            Some(ls[0].file)
        } else {
            None
        },
    }
}

/// Assembles the memory of `project_id` from its layers.
pub fn build_project_memory(project_id: &str, layers: Vec<MemoryLayer>) -> (r: ProjectMemory)
    ensures
        r.project_id@ == project_id@,
        r.has_memory == (layers@.len() > 0),
        r.count == layers@.len(),
        opt_view(r.default_file) == default_file_of(layers_view(layers@)),
        layers_view(r.layers@) == layers_view(layers@),
{
    let ghost lv = layers_view(layers@);
    let mut default_file: Option<String> = None;
    let mut i: usize = 0;
    assert(lv.skip(0) =~= lv);
    while i < layers.len() && default_file.is_none()
        invariant
            i <= layers@.len(),
            lv == layers_view(layers@),
            match default_file {
                None => first_index_file(lv.skip(i as int)) == first_index_file(lv),
                Some(f) => first_index_file(lv) == Some(f@),
            },
        decreases layers@.len() - i + (if default_file is None { 1int } else { 0int }),
    {
        assert(lv.skip(i as int)[0] == layers@[i as int]@);
        assert(lv.skip(i as int).drop_first() =~= lv.skip(i + 1));
        if layers[i].kind == MemoryLayerKind::Index {
            default_file = Some(layers[i].file.clone());
        } else {
            i = i + 1;
        }
    }
    if default_file.is_none() && layers.len() > 0 {
        proof {
            assert(lv.skip(i as int).len() == 0);
        }
        default_file = Some(layers[0].file.clone());
    }
    let count = layers.len();
    ProjectMemory {
        project_id: String::from_str(project_id),
        has_memory: count > 0,
        count,
        default_file,
        layers,
    }
}

/// One entry of a memory directory listing.
#[derive(Debug)]
pub struct DirEntryInfo {
    pub name: String,
    pub is_file: bool,
}

/// `s` has the extension `md` (ASCII case-insensitive) after at least one
/// character.
pub open spec fn md_extension(s: Seq<char>) -> bool {
    &&& s.len() >= 4
    &&& s[s.len() - 3] == '.'
    &&& ascii_lower(s[s.len() - 2]) == 'm'
    &&& ascii_lower(s[s.len() - 1]) == 'd'
}

fn has_md_extension(s: &[char]) -> (r: bool)
    ensures
        r == md_extension(s@),
{
    let n = s.len();
    n >= 4 && s[n - 3] == '.' && to_ascii_lower(s[n - 2]) == 'm' && to_ascii_lower(s[n - 1]) == 'd'
}

/// The Markdown files of a directory listing: names of regular files with
/// an `md` extension, without repetition, in ascending order.
pub fn memory_markdown_files(entries: &[DirEntryInfo]) -> (r: Vec<String>)
    ensures
        strictly_sorted(strs_view(r@)),
        forall|f: Seq<char>| strs_view(r@).contains(f) <==> exists|i: int|
            0 <= i < entries@.len() && #[trigger] entries@[i].name@ == f && entries@[i].is_file && md_extension(f),
{
    let mut out: Vec<String> = Vec::new();
    let mut i: usize = 0;
    while i < entries.len()
        invariant
            i <= entries@.len(),
            strictly_sorted(strs_view(out@)),
            forall|f: Seq<char>| strs_view(out@).contains(f) <==> exists|j: int|
                0 <= j < i && #[trigger] entries@[j].name@ == f && entries@[j].is_file && md_extension(f),
        decreases entries@.len() - i,
    {
        let name_chars = chars_of(entries[i].name.as_str());
        if entries[i].is_file && has_md_extension(&name_chars) {
            let ghost x = entries@[i as int].name@;
            let ghost before = strs_view(out@);
            let mut pos: usize = 0;
            let mut settled = false;
            while !settled && pos < out.len()
                invariant
                    pos <= out@.len(),
                    before == strs_view(out@),
                    name_chars@ == x,
                    forall|k: int| 0 <= k < pos ==> lex_lt(#[trigger] before[k], x),
                    settled ==> pos < out@.len() && !lex_lt(before[pos as int], x),
                decreases out@.len() - pos + (if settled { 0int } else { 1int }),
            {
                let cur = chars_of(out[pos].as_str());
                if chars_lt(&cur, &name_chars) {
                    pos = pos + 1;
                } else {
                    settled = true;
                }
            }
            let dup = settled && str_eq(out[pos].as_str(), entries[i].name.as_str());
            if !dup {
                let ghost p = pos as int;
                proof {
                    if p < before.len() {
                        assert(!lex_lt(before[p], x));
                        assert(before[p] != x);
                        lemma_lex_total(before[p], x);
                        assert(lex_lt(x, before[p]));
                        assert forall|k: int| p <= k < before.len() implies lex_lt(x, #[trigger] before[k]) by {
                            if k > p {
                                lemma_lex_transitive(x, before[p], before[k]);
                            }
                        }
                    }
                }
                out.insert(pos, entries[i].name.clone());
                proof {
                    let after = strs_view(out@);
                    assert(after =~= before.insert(p, x));
                    assert forall|a: int, b: int| 0 <= a < b < after.len() implies lex_lt(#[trigger] after[a], #[trigger] after[b]) by {
                        if b < p {
                        } else if b == p {
                        } else if a < p {
                            assert(after[b] == before[b - 1]);
                            lemma_lex_transitive(before[a], x, before[b - 1]);
                        } else if a == p {
                            assert(after[b] == before[b - 1]);
                        } else {
                            assert(after[a] == before[a - 1] && after[b] == before[b - 1]);
                        }
                    }
                    assert forall|f: Seq<char>| after.contains(f) <==> exists|j: int|
                        0 <= j < i + 1 && #[trigger] entries@[j].name@ == f && entries@[j].is_file && md_extension(f) by {
                        if after.contains(f) {
                            let k = choose|k: int| 0 <= k < after.len() && after[k] == f;
                            if k != p {
                                let k2 = if k < p { k } else { k - 1 };
                                assert(before[k2] == f);
                                assert(before.contains(f));
                            }
                        }
                        if exists|j: int| 0 <= j < i + 1 && #[trigger] entries@[j].name@ == f && entries@[j].is_file && md_extension(f) {
                            let j = choose|j: int| 0 <= j < i + 1 && #[trigger] entries@[j].name@ == f && entries@[j].is_file && md_extension(f);
                            if j == i {
                                assert(after[p] == f);
                            } else {
                                assert(before.contains(f));
                                let k = choose|k: int| 0 <= k < before.len() && before[k] == f;
                                let k2 = if k < p { k } else { k + 1 };
                                assert(after[k2] == f);
                            }
                        }
                    }
                }
            } else {
                proof {
                    assert(before[pos as int] == x);
                    assert(before.contains(x));
                }
            }
        }
        i = i + 1;
    }
    out
}

/// `x` without one trailing carriage return.
pub open spec fn strip_cr(x: Seq<char>) -> Seq<char> {
    if x.len() > 0 && x.last() == '\r' {
        x.drop_last()
    } else {
        x
    }
}

/// The lines of `s` from position `pos` on (`str::lines`): split at `\n`,
/// a `\r` before the `\n` dropped, no empty line after a final `\n`.
pub open spec fn lines_from(s: Seq<char>, pos: int) -> Seq<Seq<char>>
    decreases s.len() - pos,
{
    if pos < 0 || pos >= s.len() {
        Seq::empty()
    } else {
        match find_from(s, '\n', pos) {
            None => seq![s.subrange(pos, s.len() as int)],
            Some(i) => if pos <= i < s.len() {
                seq![strip_cr(s.subrange(pos, i))] + lines_from(s, i + 1)
            } else {
                Seq::empty()
            },
        }
    }
}

proof fn lemma_find_from_bounds(s: Seq<char>, c: char, from: int)
    ensures
        find_from(s, c, from) matches Some(i) ==> from <= i < s.len() && s[i] == c,
    decreases s.len() - from,
{
    if 0 <= from < s.len() && s[from] != c {
        lemma_find_from_bounds(s, c, from + 1);
    }
}

fn split_lines(s: &[char]) -> (r: Vec<Vec<char>>)
    ensures
        r@.map_values(|l: Vec<char>| l@) == lines_from(s@, 0),
{
    let mut out: Vec<Vec<char>> = Vec::new();
    let mut pos: usize = 0;
    while pos < s.len()
        invariant
            pos <= s@.len(),
            out@.map_values(|l: Vec<char>| l@) + lines_from(s@, pos as int) == lines_from(s@, 0),
        decreases s@.len() - pos,
    {
        let ghost before = out@.map_values(|l: Vec<char>| l@);
        proof {
            lemma_find_from_bounds(s@, '\n', pos as int);
        }
        match find_char_from(s, '\n', pos) {
            None => {
                out.push(slice_range(s, pos, s.len()));
                proof {
                    assert(out@.map_values(|l: Vec<char>| l@) =~= before.push(s@.subrange(pos as int, s@.len() as int)));
                    assert(lines_from(s@, s@.len() as int) =~= Seq::<Seq<char>>::empty());
                    assert(before + lines_from(s@, pos as int) =~= out@.map_values(|l: Vec<char>| l@) + lines_from(s@, s@.len() as int));
                }
                pos = s.len();
            },
            Some(i) => {
                let mut line = slice_range(s, pos, i);
                if line.len() > 0 && line[line.len() - 1] == '\r' {
                    line.pop();
                    assert(line@ =~= strip_cr(s@.subrange(pos as int, i as int)));
                }
                out.push(line);
                proof {
                    let l = strip_cr(s@.subrange(pos as int, i as int));
                    assert(out@.map_values(|l: Vec<char>| l@) =~= before.push(l));
                    assert(before + lines_from(s@, pos as int) =~= out@.map_values(|l: Vec<char>| l@) + lines_from(s@, i + 1));
                }
                pos = i + 1;
            },
        }
    }
    proof {
        assert(lines_from(s@, pos as int) =~= Seq::<Seq<char>>::empty());
        assert(out@.map_values(|l: Vec<char>| l@) =~= out@.map_values(|l: Vec<char>| l@) + lines_from(s@, pos as int));
    }
    out
}

/// The hook after the closing parenthesis: the trimmed text after the
/// first em dash, if that text is not empty.
pub open spec fn hook_after(t: Seq<char>, from: int) -> Option<Seq<char>> {
    match find_from(t, '—', from) {
        None => None,
        Some(h) => {
            let x = trim(t.subrange(h + 1, t.len() as int));
            if x.len() > 0 {
                Some(x)
            } else {
                None
            }
        },
    }
}

/// Reading of one index line `- [Title](file.md) — hook`: after leading
/// white space the line must start with `- [`; the title runs to the
/// first `]`, the file name lies between the next `(` and the first `)`
/// after it and must be a local Markdown file present in `files`.
pub open spec fn index_line_layer(line: Seq<char>, files: Seq<Seq<char>>) -> Option<MemoryLayerView> {
    let t = trim_start(line);
    if !(t.len() >= 3 && t[0] == '-' && t[1] == ' ' && t[2] == '[') {
        None
    } else {
        match find_from(t, ']', 3) {
            None => None,
            Some(te) => match find_from(t, '(', te + 1) {
                None => None,
                Some(fo) => match find_from(t, ')', fo + 1) {
                    None => None,
                    Some(fc) => {
                        let file = t.subrange(fo + 1, fc);
                        if !local_markdown_name(file) || !files.contains(file) {
                            None
                        } else {
                            Some(
                                MemoryLayerView {
                                    file,
                                    title: trim(t.subrange(3, te)),
                                    hook: hook_after(t, fc + 1),
                                    kind: MemoryLayerKind::Entry,
                                },
                            )
                        }
                    },
                },
            },
        }
    }
}

/// Parses one line of `MEMORY.md` (see [`index_line_layer`]).
pub fn parse_memory_index_line(line: &str, markdown_files: &[String]) -> (r: Option<MemoryLayer>)
    ensures
        (match r {
            Some(l) => Some(l@),
            None => None,
        }) == index_line_layer(line@, strs_view(markdown_files@)),
{
    let lc = chars_of(line);
    let mut a: usize = 0;
    proof {
        lemma_lead_ws_bound(lc@);
        assert(lc@.skip(0) =~= lc@);
    }
    while a < lc.len() && is_whitespace(lc[a])
        invariant
            a <= lc@.len(),
            lead_ws(lc@) == a + lead_ws(lc@.skip(a as int)),
        decreases lc@.len() - a,
    {
        assert(lc@.skip(a as int).drop_first() =~= lc@.skip(a + 1));
        a = a + 1;
    }
    let t = slice_range(&lc, a, lc.len());
    proof {
        assert(t@ =~= lc@.skip(a as int));
        assert(lead_ws(lc@.skip(a as int)) == 0);
        assert(t@ == trim_start(line@));
    }
    if !(t.len() >= 3 && t[0] == '-' && t[1] == ' ' && t[2] == '[') {
        return None;
    }
    proof {
        lemma_find_from_bounds(t@, ']', 3);
    }
    let te = match find_char_from(&t, ']', 3) {
        None => return None,
        Some(x) => x,
    };
    proof {
        lemma_find_from_bounds(t@, '(', te + 1);
    }
    let fo = match find_char_from(&t, '(', te + 1) {
        None => return None,
        Some(x) => x,
    };
    proof {
        lemma_find_from_bounds(t@, ')', fo + 1);
    }
    let fc = match find_char_from(&t, ')', fo + 1) {
        None => return None,
        Some(x) => x,
    };
    let file_chars = slice_range(&t, fo + 1, fc);
    let file = string_from_chars(&file_chars);
    let safe = match validate_memory_file_name(file.as_str()) {
        Ok(f) => f,
        Err(_) => return None,
    };
    if !strings_contain(markdown_files, safe.as_str()) {
        return None;
    }
    let title_chars = trimmed_range(&t, 3, te);
    proof {
        lemma_find_from_bounds(t@, '—', fc + 1);
    }
    let hook = match find_char_from(&t, '—', fc + 1) {
        None => None,
        Some(h) => {
            let x = trimmed_range(&t, h + 1, t.len());
            if x.len() > 0 {
                Some(string_from_chars(&x))
            } else {
                None
            }
        },
    };
    Some(MemoryLayer { file: safe, title: string_from_chars(&title_chars), hook, kind: MemoryLayerKind::Entry })
}

/// Layers read from the lines `ls`, in order, skipping lines that are not
/// index entries.
pub open spec fn index_layers(ls: Seq<Seq<char>>, files: Seq<Seq<char>>) -> Seq<MemoryLayerView>
    decreases ls.len(),
{
    if ls.len() == 0 {
        Seq::empty()
    } else {
        (match index_line_layer(ls[0], files) {
            Some(l) => seq![l],
            None => Seq::empty(),
        }) + index_layers(ls.drop_first(), files)
    }
}

/// Parses the whole of `MEMORY.md` into entry layers, one per valid line.
pub fn parse_memory_index(content: &str, markdown_files: &[String]) -> (r: Vec<MemoryLayer>)
    ensures
        layers_view(r@) == index_layers(lines_from(content@, 0), strs_view(markdown_files@)),
{
    let cs = chars_of(content);
    let lines = split_lines(&cs);
    let ghost ls = lines@.map_values(|l: Vec<char>| l@);
    let ghost files = strs_view(markdown_files@);
    let mut out: Vec<MemoryLayer> = Vec::new();
    let mut i: usize = 0;
    assert(ls.skip(0) =~= ls);
    while i < lines.len()
        invariant
            i <= lines@.len(),
            ls == lines@.map_values(|l: Vec<char>| l@),
            files == strs_view(markdown_files@),
            layers_view(out@) + index_layers(ls.skip(i as int), files) == index_layers(ls, files),
        decreases lines@.len() - i,
    {
        let line = string_from_chars(lines[i].as_slice());
        let parsed = parse_memory_index_line(line.as_str(), markdown_files);
        let ghost before = layers_view(out@);
        proof {
            assert(ls.skip(i as int)[0] == lines@[i as int]@);
            assert(ls.skip(i as int).drop_first() =~= ls.skip(i + 1));
        }
        match parsed {
            Some(l) => {
                out.push(l);
                assert(layers_view(out@) =~= before + seq![out@[i as int]@].take(0) + seq![layers_view(out@).last()]);
            },
            None => {},
        }
        proof {
            assert(layers_view(out@) + index_layers(ls.skip(i + 1), files) =~= before + index_layers(ls.skip(i as int), files));
        }
        i = i + 1;
    }
    proof {
        assert(ls.skip(i as int).len() == 0);
        assert(layers_view(out@) =~= layers_view(out@) + index_layers(ls.skip(i as int), files));
    }
    out
}

/// `s` with every trailing `.md` removed (`str::trim_end_matches(".md")`).
pub open spec fn strip_md_suffixes(s: Seq<char>) -> Seq<char>
    decreases s.len(),
{
    if s.len() >= 3 && s[s.len() - 3] == '.' && s[s.len() - 2] == 'm' && s[s.len() - 1] == 'd' {
        strip_md_suffixes(s.take(s.len() - 3))
    } else {
        s
    }
}

/// `_` and `-` read as spaces.
pub open spec fn dash_to_space(c: char) -> char {
    if c == '_' || c == '-' {
        ' '
    } else {
        c
    }
}

/// Display title of a memory file that the index does not mention.
pub open spec fn orphan_title(file: Seq<char>) -> Seq<char> {
    strip_md_suffixes(file).map_values(|c: char| dash_to_space(c))
}

/// Title of an orphan memory file: its name without the `.md` suffixes,
/// underscores and hyphens shown as spaces.
pub fn orphan_title_of(file: &str) -> (r: String)
    ensures
        r@ == orphan_title(file@),
{
    let cs = chars_of(file);
    let mut end: usize = cs.len();
    assert(cs@.take(end as int) =~= cs@);
    while end >= 3 && cs[end - 3] == '.' && cs[end - 2] == 'm' && cs[end - 1] == 'd'
        invariant
            end <= cs@.len(),
            strip_md_suffixes(cs@.take(end as int)) == strip_md_suffixes(cs@),
        decreases end,
    {
        assert(cs@.take(end as int).take(end - 3) =~= cs@.take(end - 3));
        end = end - 3;
    }
    let mut out: Vec<char> = Vec::new();
    let mut i: usize = 0;
    let ghost base = cs@.take(end as int);
    assert(strip_md_suffixes(base) == base);
    assert(orphan_title(file@) == base.map_values(|c: char| dash_to_space(c)));
    while i < end
        invariant
            i <= end <= cs@.len(),
            base == cs@.take(end as int),
            out@ == base.take(i as int).map_values(|c: char| dash_to_space(c)),
        decreases end - i,
    {
        let c = cs[i];
        if c == '_' || c == '-' {
            out.push(' ');
        } else {
            out.push(c);
        }
        i = i + 1;
        assert(out@ =~= base.take(i as int).map_values(|c: char| dash_to_space(c)));
    }
    assert(base.take(end as int) =~= base);
    string_from_chars(&out)
}

/// Name of the index file.
pub open spec fn index_file_name() -> Seq<char> {
    seq!['M', 'E', 'M', 'O', 'R', 'Y', '.', 'm', 'd']
}

/// The layer that stands for `MEMORY.md` itself.
pub open spec fn index_layer_view() -> MemoryLayerView {
    MemoryLayerView {
        file: index_file_name(),
        title: seq!['I', 'n', 'd', 'e', 'x'],
        hook: Some(index_file_name()),
        kind: MemoryLayerKind::Index,
    }
}

/// Files of a sequence of layers.
pub open spec fn layer_files(ls: Seq<MemoryLayerView>) -> Seq<Seq<char>> {
    ls.map_values(|l: MemoryLayerView| l.file)
}

/// Orphan layers for the files `files`, in order, leaving out the index
/// and every file in `indexed`.
pub open spec fn orphan_layers(files: Seq<Seq<char>>, indexed: Seq<Seq<char>>) -> Seq<MemoryLayerView>
    decreases files.len(),
{
    if files.len() == 0 {
        Seq::empty()
    } else {
        let f = files[0];
        (if f == index_file_name() || indexed.contains(f) {
            Seq::empty()
        } else {
            seq![MemoryLayerView { file: f, title: orphan_title(f), hook: None, kind: MemoryLayerKind::Orphan }]
        }) + orphan_layers(files.drop_first(), indexed)
    }
}

/// All layers of a memory directory whose Markdown files are `files` and
/// whose index reads `index`: when `MEMORY.md` is among the files, its
/// own layer and its entries first; then every other file as an orphan.
pub open spec fn memory_layers_of(files: Seq<Seq<char>>, index: Seq<char>) -> Seq<MemoryLayerView> {
    if files.contains(index_file_name()) {
        let es = index_layers(lines_from(index, 0), files);
        seq![index_layer_view()] + es + orphan_layers(files, layer_files(es))
    } else {
        orphan_layers(files, Seq::empty())
    }
}

/// Whether one of the layers `ls` is for `file`.
fn layers_have_file(ls: &[MemoryLayer], file: &str) -> (r: bool)
    ensures
        r == layer_files(layers_view(ls@)).contains(file@),
{
    let ghost fs = layer_files(layers_view(ls@));
    let mut i: usize = 0;
    while i < ls.len()
        invariant
            i <= ls@.len(),
            fs == layer_files(layers_view(ls@)),
            forall|j: int| 0 <= j < i ==> #[trigger] fs[j] != file@,
        decreases ls@.len() - i,
    {
        if str_eq(ls[i].file.as_str(), file) {
            assert(fs[i as int] == file@);
            return true;
        }
        i = i + 1;
    }
    false
}

/// The layers of a memory directory from its Markdown files (as
/// [`memory_markdown_files`] lists them) and the text of `MEMORY.md`,
/// which counts as empty when absent.
pub fn discover_memory_layers(markdown_files: &[String], index_content: Option<&str>) -> (r: Vec<MemoryLayer>)
    ensures
        layers_view(r@) == memory_layers_of(
            strs_view(markdown_files@),
            match index_content {
                Some(c) => c@,
                None => Seq::empty(),
            },
        ),
{
    let ghost files = strs_view(markdown_files@);
    let ghost content = match index_content {
        Some(c) => c@,
        None => Seq::<char>::empty(),
    };
    let index_name = "MEMORY.md";
    proof {
        reveal_strlit("MEMORY.md");
        reveal_strlit("Index");
        assert(index_name@ =~= index_file_name());
        assert("Index"@ =~= seq!['I', 'n', 'd', 'e', 'x']);
    }
    let mut layers: Vec<MemoryLayer> = Vec::new();
    let mut entries: Vec<MemoryLayer> = Vec::new();
    let has_index = strings_contain(markdown_files, index_name);
    if has_index {
        layers.push(MemoryLayer {
            file: String::from_str(index_name),
            title: String::from_str("Index"),
            hook: Some(String::from_str(index_name)),
            kind: MemoryLayerKind::Index,
        });
        let text = match index_content {
            Some(c) => String::from_str(c),
            None => String::new(),
        };
        entries = parse_memory_index(text.as_str(), markdown_files);
        proof {
            assert(layers@[0]@ == index_layer_view());
            assert(layers_view(layers@) =~= seq![index_layer_view()]);
        }
    }
    let ghost es = layers_view(entries@);
    let ghost head = layers_view(layers@);
    let mut i: usize = 0;
    assert(files.skip(0) =~= files);
    let mut tail: Vec<MemoryLayer> = Vec::new();
    while i < markdown_files.len()
        invariant
            i <= markdown_files@.len(),
            files == strs_view(markdown_files@),
            es == layers_view(entries@),
            index_name@ == index_file_name(),
            layers_view(tail@) + orphan_layers(files.skip(i as int), layer_files(es))
                == orphan_layers(files, layer_files(es)),
        decreases markdown_files@.len() - i,
    {
        let ghost before = layers_view(tail@);
        let f = markdown_files[i].as_str();
        proof {
            assert(files.skip(i as int)[0] == f@);
            assert(files.skip(i as int).drop_first() =~= files.skip(i + 1));
        }
        let ghost step: Seq<MemoryLayerView> = if f@ == index_file_name() || layer_files(es).contains(f@) {
            Seq::empty()
        } else {
            seq![MemoryLayerView { file: f@, title: orphan_title(f@), hook: None, kind: MemoryLayerKind::Orphan }]
        };
        proof {
            assert(orphan_layers(files.skip(i as int), layer_files(es))
                == step + orphan_layers(files.skip(i + 1), layer_files(es)));
        }
        if !str_eq(f, index_name) && !layers_have_file(&entries, f) {
            let layer = MemoryLayer {
                file: String::from_str(f),
                title: orphan_title_of(f),
                hook: None,
                kind: MemoryLayerKind::Orphan,
            };
            assert(layer@ == step[0]);
            tail.push(layer);
            proof {
                assert(layers_view(tail@) =~= before + step);
            }
        } else {
            assert(layers_view(tail@) =~= before + step);
        }
        proof {
            assert(layers_view(tail@) + orphan_layers(files.skip(i + 1), layer_files(es))
                =~= before + orphan_layers(files.skip(i as int), layer_files(es)));
        }
        i = i + 1;
    }
    proof {
        assert(files.skip(i as int).len() == 0);
        assert(layers_view(tail@) =~= layers_view(tail@) + orphan_layers(files.skip(i as int), layer_files(es)));
        if !has_index {
            assert(entries@.len() == 0);
            assert(layer_files(es) =~= Seq::<Seq<char>>::empty());
        }
    }
    let ghost t = layers_view(tail@);
    layers.append(&mut entries);
    layers.append(&mut tail);
    proof {
        assert(layers_view(layers@) =~= head + es + t);
    }
    layers
}

} // verus!
