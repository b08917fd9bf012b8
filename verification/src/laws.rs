//! Properties of the library that span several functions or hold of every
//! input, stated over the same spec functions as the functions' contracts.

use vstd::prelude::*;

use crate::assoc::{has_key, key_index, keys_unique, lemma_key_index, lemma_prepend_unique, lemma_remove_keys, map_filter};
use crate::chunk::{compact_delta, compacts_before, first_ai_after, last_ai_before, Chunk};
use crate::context::{self_heal_ok, FsKind};
use crate::parsed_cache::{lru_insert, FileSignature, ParsedKey, ParsedMessageCache};
use crate::scan_cache::{bump, is_hit, ttl_ms, CtxV, EntryView, OverlayKey};
use crate::project::ProjectView;
use crate::group::{
    next_offset, offset_view, OffsetView, best_upto, comes_before, head_before, is_candidate, is_copy, keeps, merge_from, outranks, unbeaten, SessionRef,
    Worktree, WorktreeOffset,
};
use crate::lex::{lemma_lex_irreflexive, lemma_lex_total, lemma_lex_transitive};
use crate::memory::{
    index_file_name, index_layer_view, index_layers, layer_files, lines_from, memory_layers_of, orphan_layers,
    MemoryLayerView,
};
use crate::external_app::{terminal_command, terminals_for, target_var, TargetOs, TerminalApp};
use crate::session::{fingerprint_text, stale_at, STALE_SESSION_THRESHOLD_MS};
use crate::search_path::{comps_of, first_occurrences};
use crate::paths::path_comps;
use crate::session_filter::{effective_limit, limit_value, listing_taken, match_count, session_matches, ListedSession, SessionListFilter};
use crate::jobs::{group_rank, positions_of_rank, stable_group_order, JobGroup};
use crate::decimal::{dec_nat, digit_char};
use crate::messages::{all_digits, block_id_parts, digits_value, is_digit, last_colon, parsed_usize, without_plus};
use crate::pagination::{cursor_offset, next_page_cursor, page_end, page_start};
use crate::groups_cache::{groups_served, GroupsEntryView, GroupsGenerations, GROUPS_CACHE_TTL_MS};
use crate::group::RepositoryGroup;
use std::sync::Arc;
use crate::subagents::shown_ids;
use crate::scan_registry::{
    keys_distinct, lemma_without_key_distinct, record_of, selects, unpicked, without_key, ScanRecord, ScanSelector,
};

verus! {

/// A snapshot written under generations `rg`/`cg` at `t_insert` is served
/// to a lookup under the same generations at any `t_lookup` within its
/// time-to-live, to no lookup under other generations, and to no lookup
/// at all once its time-to-live has passed.
pub proof fn law_scan_cache_read_after_write(
    m: Map<CtxV, EntryView>,
    ctx: CtxV,
    snapshot: Seq<ProjectView>,
    rg: u64,
    cg: u64,
    kind: FsKind,
    t_insert: u64,
    t_lookup: u64,
    rg2: u64,
    cg2: u64,
)
    requires
        t_lookup <= t_insert + ttl_ms(kind),
    ensures
        is_hit(
            m.insert(
                ctx,
                EntryView {
                    snapshot,
                    root_generation: rg,
                    context_generation: cg,
                    inserted_at_ms: t_insert,
                    fs_kind: kind,
                },
            ),
            ctx,
            rg,
            cg,
            t_lookup,
        ),
        (rg2 != rg || cg2 != cg) ==> !is_hit(
            m.insert(
                ctx,
                EntryView {
                    snapshot,
                    root_generation: rg,
                    context_generation: cg,
                    inserted_at_ms: t_insert,
                    fs_kind: kind,
                },
            ),
            ctx,
            rg2,
            cg2,
            t_lookup,
        ),
        t_lookup > t_insert + ttl_ms(kind) ==> !is_hit(
            m.insert(
                ctx,
                EntryView {
                    snapshot,
                    root_generation: rg,
                    context_generation: cg,
                    inserted_at_ms: t_insert,
                    fs_kind: kind,
                },
            ),
            ctx,
            rg2,
            cg2,
            t_lookup,
        ),
{
}

/// Every invalidation moves the invalidation generation, so a scan that
/// recorded the generation before an invalidation can never write its
/// (possibly stale) snapshot afterwards.
pub proof fn law_invalidation_changes_generation(g: u64)
    ensures
        bump(g) != g,
{
}

/// Clearing the local entries keeps every remote entry unchanged and
/// leaves no local entry behind.
pub proof fn law_invalidate_local_keeps_remote(m: Map<CtxV, EntryView>, k: CtxV)
    ensures
        m.contains_key(k) && m[k].fs_kind != FsKind::Local ==> map_filter(
            m,
            |c: CtxV, e: EntryView| e.fs_kind != FsKind::Local,
        ).contains_key(k) && map_filter(m, |c: CtxV, e: EntryView| e.fs_kind != FsKind::Local)[k] == m[k],
        map_filter(m, |c: CtxV, e: EntryView| e.fs_kind != FsKind::Local).contains_key(k) ==> map_filter(
            m,
            |c: CtxV, e: EntryView| e.fs_kind != FsKind::Local,
        )[k].fs_kind != FsKind::Local,
{
}

/// The overlay after advancing key `key` to `t` (the formula of
/// `ProjectScanCache::advance_mtime`).
pub open spec fn advanced(m: Map<OverlayKey, i64>, key: OverlayKey, t: i64) -> Map<OverlayKey, i64> {
    if m.contains_key(key) && m[key] >= t {
        m
    } else {
        m.insert(key, t)
    }
}

/// Advancing a project's mtime hint never lowers it: afterwards the hint
/// is at least the new time and at least the old hint, and no other
/// project's hint changes.
pub proof fn law_overlay_never_decreases(m: Map<OverlayKey, i64>, key: OverlayKey, t: i64, other: OverlayKey)
    ensures
        advanced(m, key, t).contains_key(key),
        advanced(m, key, t)[key] >= t,
        m.contains_key(key) ==> advanced(m, key, t)[key] >= m[key],
        other != key ==> advanced(m, key, t).contains_key(other) == m.contains_key(other),
        other != key && m.contains_key(other) ==> advanced(m, key, t)[other] == m[other],
{
}

/// A write to the parsed-message cache is read back: the key is present,
/// it is the most recently used entry, and it holds the written value.
pub proof fn law_lru_read_after_write<V>(s: Seq<(ParsedKey, V)>, cap: nat, k: ParsedKey, v: V)
    requires
        keys_unique(s),
    ensures
        keys_unique(lru_insert(s, cap, k, v)),
        has_key(lru_insert(s, cap, k, v), k),
        key_index(lru_insert(s, cap, k, v), k) == 0,
        lru_insert(s, cap, k, v)[0].1 == v,
{
    let t = lru_insert(s, cap, k, v);
    if has_key(s, k) {
        lemma_key_index(s, k);
        lemma_remove_keys(s, key_index(s, k));
        lemma_prepend_unique(s.remove(key_index(s, k)), (k, v));
    } else if s.len() >= cap && s.len() > 0 {
        assert(keys_unique(s.drop_last()));
        assert(!has_key(s.drop_last(), k)) by {
            if has_key(s.drop_last(), k) {
                let j = choose|j: int| 0 <= j < s.drop_last().len() && #[trigger] s.drop_last()[j].0 == k;
                assert(s[j].0 == k);
            }
        }
        lemma_prepend_unique(s.drop_last(), (k, v));
    } else {
        lemma_prepend_unique(s, (k, v));
    }
    assert(t[0].0 == k);
    lemma_key_index(t, k);
}

/// The parsed-message cache never holds more entries than its capacity
/// (one for a capacity of zero).
pub proof fn law_lru_capacity<V>(s: Seq<(ParsedKey, V)>, cap: nat, k: ParsedKey, v: V)
    requires
        keys_unique(s),
        s.len() <= if cap == 0 { 1 } else { cap },
    ensures
        lru_insert(s, cap, k, v).len() <= if cap == 0 { 1 } else { cap },
{
    if has_key(s, k) {
        lemma_key_index(s, k);
    }
}

/// Writing a new key into a full cache evicts exactly the least recently
/// used entry and keeps the others in order.
pub proof fn law_lru_evicts_least_recent<V>(s: Seq<(ParsedKey, V)>, cap: nat, k: ParsedKey, v: V)
    requires
        keys_unique(s),
        !has_key(s, k),
        s.len() >= cap,
        s.len() > 0,
    ensures
        lru_insert(s, cap, k, v) == seq![(k, v)] + s.drop_last(),
        !has_key(lru_insert(s, cap, k, v), s.last().0),
{
    let t = lru_insert(s, cap, k, v);
    if has_key(t, s.last().0) {
        let j = choose|j: int| 0 <= j < t.len() && #[trigger] t[j].0 == s.last().0;
        if j == 0 {
            assert(s[s.len() - 1].0 == k);
        } else {
            assert(t[j] == s[j - 1]);
            assert(s[j - 1].0 == s[s.len() - 1].0);
        }
    }
}

/// Removing a key from the parsed-message cache makes the next lookup miss.
pub proof fn law_lru_remove_then_miss<V>(s: Seq<(ParsedKey, V)>, k: ParsedKey)
    requires
        keys_unique(s),
        has_key(s, k),
    ensures
        !has_key(s.remove(key_index(s, k)), k),
{
    lemma_key_index(s, k);
    if has_key(s.remove(key_index(s, k)), k) {
        let i = key_index(s, k);
        let j = choose|j: int| 0 <= j < s.remove(i).len() && #[trigger] s.remove(i)[j].0 == k;
        if j < i {
            assert(s[j].0 == k);
        } else {
            assert(s[j + 1].0 == k);
        }
    }
}

proof fn lemma_compacts_before_step(cs: Seq<Chunk>, i: int, j: int)
    requires
        0 <= i < j <= cs.len(),
        cs[i] is Compact,
    ensures
        compacts_before(cs, j) >= compacts_before(cs, i) + 1,
    decreases j - i,
{
    if j > i + 1 {
        lemma_compacts_before_step(cs, i, j - 1);
    }
}

/// Compaction phases are numbered in order: a later compaction always
/// opens a higher phase than an earlier one.
pub proof fn law_compaction_phases_increase(cs: Seq<Chunk>, i: int, j: int)
    requires
        0 <= i < j < cs.len(),
        cs[i] is Compact,
    ensures
        compacts_before(cs, i) + 2 < compacts_before(cs, j) + 2,
{
    lemma_compacts_before_step(cs, i, j);
}

/// No AI chunk lies in `cs[i..=j]`.
pub open spec fn no_ai_between(cs: Seq<Chunk>, i: int, j: int) -> bool {
    forall|t: int| i <= t <= j ==> !(#[trigger] cs[t] is Ai)
}

/// Compactions with no AI chunk between them see the same context change:
/// they share the AI chunk before and the AI chunk after, hence the same
/// token delta.
pub proof fn law_adjacent_compactions_share_delta(cs: Seq<Chunk>, i: int, j: int)
    requires
        0 <= i <= j < cs.len(),
        no_ai_between(cs, i, j),
    ensures
        compact_delta(cs, i) == compact_delta(cs, j),
    decreases j - i,
{
    if i < j {
        law_adjacent_compactions_share_delta(cs, i, j - 1);
        assert(!(cs[j - 1] is Ai));
        assert(!(cs[j] is Ai));
        assert(last_ai_before(cs, j) == last_ai_before(cs, j - 1));
        assert(first_ai_after(cs, j - 1) == first_ai_after(cs, j));
    }
}

/// After de-duplication a session is kept in at most one worktree: two
/// worktrees that both keep `sid` are the same worktree.
pub proof fn law_dedup_keeps_one_worktree(
    cs: Seq<(String, WorktreeOffset)>,
    wts: Seq<Worktree>,
    ls: Seq<Seq<SessionRef>>,
    sid: Seq<char>,
    w1: Seq<char>,
    w2: Seq<char>,
)
    requires
        keeps(cs, wts, ls, sid, w1),
        keeps(cs, wts, ls, sid, w2),
    ensures
        w1 == w2,
{
    let (j1, k1) = choose|j: int, k: int|
        #![trigger ls[j][k], wts[j]]
        is_copy(cs, wts, ls, sid, j, k) && wts[j].id@ == w1 && unbeaten(cs, wts, ls, sid, j, k);
    let (j2, k2) = choose|j: int, k: int|
        #![trigger ls[j][k], wts[j]]
        is_copy(cs, wts, ls, sid, j, k) && wts[j].id@ == w2 && unbeaten(cs, wts, ls, sid, j, k);
    if w1 != w2 {
        lemma_lex_total(w1, w2);
        assert(!outranks(ls[j1][k1].last_modified, wts[j1].id@, ls[j2][k2].last_modified, wts[j2].id@));
        assert(!outranks(ls[j2][k2].last_modified, wts[j2].id@, ls[j1][k1].last_modified, wts[j1].id@));
    }
}

proof fn lemma_comes_before_irreflexive(m: i64, id: Seq<char>)
    ensures
        !comes_before(m, id, m, id),
{
    lemma_lex_irreflexive(id);
}

proof fn lemma_comes_before_transitive(m1: i64, a: Seq<char>, m2: i64, b: Seq<char>, m3: i64, c: Seq<char>)
    requires
        comes_before(m1, a, m2, b),
        comes_before(m2, b, m3, c),
    ensures
        comes_before(m1, a, m3, c),
{
    if m1 == m2 && m2 == m3 {
        lemma_lex_transitive(a, b, c);
    }
}

proof fn lemma_best_upto_first(ls: Seq<Seq<SessionRef>>, ex: Seq<bool>, pos: Seq<int>, n: int)
    ensures
        best_upto(ls, ex, pos, n) matches Some(w) ==> 0 <= w < n && is_candidate(ls, ex, pos, w) && forall|v: int|
            0 <= v < n && is_candidate(ls, ex, pos, v) ==> !#[trigger] head_before(ls, pos, v, w),
        best_upto(ls, ex, pos, n) is None ==> forall|v: int| 0 <= v < n ==> !#[trigger] is_candidate(ls, ex, pos, v),
    decreases n,
{
    if n > 0 {
        lemma_best_upto_first(ls, ex, pos, n - 1);
        let b = best_upto(ls, ex, pos, n - 1);
        let last = n - 1;
        if is_candidate(ls, ex, pos, last) && (b is None || head_before(ls, pos, last, b->0)) {
            assert forall|v: int| 0 <= v < n && is_candidate(ls, ex, pos, v) implies !#[trigger] head_before(
                ls,
                pos,
                v,
                last,
            ) by {
                if v == last {
                    lemma_comes_before_irreflexive(ls[last][pos[last]].last_modified, ls[last][pos[last]].id@);
                } else if head_before(ls, pos, v, last) {
                    if b is None {
                        assert(!is_candidate(ls, ex, pos, v));
                    } else {
                        let w = b->0;
                        lemma_comes_before_transitive(
                            ls[v][pos[v]].last_modified,
                            ls[v][pos[v]].id@,
                            ls[last][pos[last]].last_modified,
                            ls[last][pos[last]].id@,
                            ls[w][pos[w]].last_modified,
                            ls[w][pos[w]].id@,
                        );
                        assert(head_before(ls, pos, v, w));
                    }
                }
            }
        }
    }
}

/// Each list runs newest first: no later session comes before an earlier one.
pub open spec fn lists_newest_first(ls: Seq<Seq<SessionRef>>) -> bool {
    forall|w: int, a: int, b: int|
        #![trigger ls[w][a], ls[w][b]]
        0 <= w < ls.len() && 0 <= a < b < ls[w].len() ==> !comes_before(
            ls[w][b].last_modified,
            ls[w][b].id@,
            ls[w][a].last_modified,
            ls[w][a].id@,
        )
}

/// The session at entry `e` of a page.
pub open spec fn entry_session(ls: Seq<Seq<SessionRef>>, e: (int, int)) -> SessionRef {
    ls[e.0][e.1]
}

proof fn lemma_merge_first_is_head(ls: Seq<Seq<SessionRef>>, ex: Seq<bool>, pos: Seq<int>, k: nat)
    ensures
        merge_from(ls, ex, pos, k).len() > 0 ==> {
            let e = merge_from(ls, ex, pos, k)[0];
            &&& is_candidate(ls, ex, pos, e.0)
            &&& e.1 == pos[e.0]
            &&& forall|v: int| 0 <= v < ls.len() && is_candidate(ls, ex, pos, v) ==> !#[trigger] head_before(ls, pos, v, e.0)
        },
{
    if k > 0 {
        lemma_best_upto_first(ls, ex, pos, ls.len() as int);
    }
}

/// When every worktree's sessions run newest first, the merged page runs
/// newest first too: no entry comes before the one listed ahead of it.
pub proof fn law_group_page_newest_first(ls: Seq<Seq<SessionRef>>, ex: Seq<bool>, pos: Seq<int>, k: nat, t: int)
    requires
        lists_newest_first(ls),
        pos.len() == ls.len(),
        ex.len() == ls.len(),
        0 <= t,
        t + 1 < merge_from(ls, ex, pos, k).len(),
    ensures
        !comes_before(
            entry_session(ls, merge_from(ls, ex, pos, k)[t + 1]).last_modified,
            entry_session(ls, merge_from(ls, ex, pos, k)[t + 1]).id@,
            entry_session(ls, merge_from(ls, ex, pos, k)[t]).last_modified,
            entry_session(ls, merge_from(ls, ex, pos, k)[t]).id@,
        ),
    decreases k,
{
    lemma_best_upto_first(ls, ex, pos, ls.len() as int);
    let w = best_upto(ls, ex, pos, ls.len() as int)->0;
    let pos2 = pos.update(w, pos[w] + 1);
    let rest = merge_from(ls, ex, pos2, (k - 1) as nat);
    assert(merge_from(ls, ex, pos, k) == seq![(w, pos[w])] + rest);
    if t == 0 {
        lemma_merge_first_is_head(ls, ex, pos2, (k - 1) as nat);
        let e = rest[0];
        let v = e.0;
        if v == w {
            assert(ls[w][pos[w]] == ls[w][pos[w]]);
            assert(!comes_before(
                ls[w][pos[w] + 1].last_modified,
                ls[w][pos[w] + 1].id@,
                ls[w][pos[w]].last_modified,
                ls[w][pos[w]].id@,
            ));
        } else {
            assert(pos2[v] == pos[v]);
            assert(is_candidate(ls, ex, pos, v));
            assert(!head_before(ls, pos, v, w));
        }
    } else {
        law_group_page_newest_first(ls, ex, pos2, (k - 1) as nat, t - 1);
    }
}

proof fn lemma_orphans_cover(files: Seq<Seq<char>>, indexed: Seq<Seq<char>>, f: Seq<char>)
    requires
        files.contains(f),
        f != index_file_name(),
        !indexed.contains(f),
    ensures
        layer_files(orphan_layers(files, indexed)).contains(f),
    decreases files.len(),
{
    let rest = orphan_layers(files.drop_first(), indexed);
    let head: Seq<MemoryLayerView> = if files[0] == index_file_name() || indexed.contains(files[0]) {
        Seq::empty()
    } else {
        seq![
            MemoryLayerView {
                file: files[0],
                title: crate::memory::orphan_title(files[0]),
                hook: None,
                kind: crate::memory::MemoryLayerKind::Orphan,
            },
        ]
    };
    assert(orphan_layers(files, indexed) == head + rest);
    assert(layer_files(head + rest) =~= layer_files(head) + layer_files(rest));
    if files[0] == f {
        assert(layer_files(head)[0] == f);
        assert(layer_files(head + rest)[0] == f);
    } else {
        let i = choose|i: int| 0 <= i < files.len() && files[i] == f;
        assert(files.drop_first()[i - 1] == f);
        lemma_orphans_cover(files.drop_first(), indexed, f);
        let j = choose|j: int| 0 <= j < layer_files(rest).len() && layer_files(rest)[j] == f;
        assert((layer_files(head) + layer_files(rest))[layer_files(head).len() + j] == f);
    }
}

/// Every Markdown file of a memory directory is shown: as the index, as an
/// entry of the index, or as an orphan.
pub proof fn law_memory_layers_cover_files(files: Seq<Seq<char>>, index: Seq<char>, f: Seq<char>)
    requires
        files.contains(f),
    ensures
        layer_files(memory_layers_of(files, index)).contains(f),
{
    if files.contains(index_file_name()) {
        let es = index_layers(lines_from(index, 0), files);
        let all = seq![index_layer_view()] + es + orphan_layers(files, layer_files(es));
        assert(layer_files(all) =~= seq![index_file_name()] + layer_files(es) + layer_files(orphan_layers(files, layer_files(es))));
        if f == index_file_name() {
            assert(layer_files(all)[0] == f);
        } else if layer_files(es).contains(f) {
            let j = choose|j: int| 0 <= j < layer_files(es).len() && layer_files(es)[j] == f;
            assert(layer_files(all)[1 + j] == f);
        } else {
            lemma_orphans_cover(files, layer_files(es), f);
            let o = layer_files(orphan_layers(files, layer_files(es)));
            let j = choose|j: int| 0 <= j < o.len() && o[j] == f;
            assert(layer_files(all)[1 + layer_files(es).len() + j] == f);
        }
    } else {
        assert(f != index_file_name());
        lemma_orphans_cover(files, Seq::empty(), f);
    }
}

/// A directory opened in PowerShell or `cmd` reaches the shell only
/// through the `CDT_TARGET_PATH` variable: the shell's arguments are the
/// same whatever the directory.
pub proof fn law_shell_terminals_take_path_from_env(app: TerminalApp, d1: Seq<char>, d2: Seq<char>)
    requires
        app == TerminalApp::PowerShell || app == TerminalApp::Cmd,
    ensures
        terminal_command(app, d1).args == terminal_command(app, d2).args,
        terminal_command(app, d1).env == seq![(target_var(), d1)],
{
}

/// Every terminal choice launches its own program: two different choices
/// never give the same command, whatever the directories. On macOS the
/// command is `open -a <application> <dir>`, the application named being
/// the one chosen.
pub proof fn law_terminal_choices_give_distinct_commands(a1: TerminalApp, a2: TerminalApp, d1: Seq<char>, d2: Seq<char>)
    requires
        a1 != a2,
    ensures
        terminal_command(a1, d1) != terminal_command(a2, d2),
        terminals_for(TargetOs::MacOs).contains(a1) ==> terminal_command(a1, d1).program == "open"@
            && terminal_command(a1, d1).args.len() == 3 && terminal_command(a1, d1).args[0] == "-a"@
            && terminal_command(a1, d1).args[2] == d1,
{
    reveal_strlit("open");
    reveal_strlit("-a");
    reveal_strlit("Terminal");
    reveal_strlit("iTerm");
    reveal_strlit("Warp");
    reveal_strlit("wt.exe");
    reveal_strlit("powershell.exe");
    reveal_strlit("cmd.exe");
    reveal_strlit("x-terminal-emulator");
    reveal_strlit("gnome-terminal");
    reveal_strlit("konsole");
    reveal_strlit("alacritty");
    let c1 = terminal_command(a1, d1);
    let c2 = terminal_command(a2, d2);
    assert(c1 != c2 || (c1.program.len() == c2.program.len() && c1.resolve == c2.resolve && c1.args.len()
        == c2.args.len() && (c1.program == "open"@ ==> c1.args[1].len() == c2.args[1].len())));
}

/// A session fingerprint taken at wall-clock reading `now` carries the
/// stale bit exactly when the file's modification time is known and lies
/// at least the threshold before `now`.
pub proof fn law_fingerprint_stale_after_threshold(mtime_ms: Option<i64>, size: Option<u64>, now: i64)
    ensures
        fingerprint_text(mtime_ms, size, stale_at(mtime_ms, now)).last() == '1' <==> (mtime_ms matches Some(m)
            && now - m >= STALE_SESSION_THRESHOLD_MS),
        fingerprint_text(mtime_ms, size, stale_at(mtime_ms, now)).last() == '0' <==> !(mtime_ms matches Some(m)
            && now - m >= STALE_SESSION_THRESHOLD_MS),
{
}

/// The stale bit is part of a session fingerprint: flipping it changes the
/// fingerprint, so a client holding the old one refetches.
pub proof fn law_stale_bit_changes_fingerprint(mtime_ms: Option<i64>, size: Option<u64>)
    ensures
        fingerprint_text(mtime_ms, size, false) != fingerprint_text(mtime_ms, size, true),
{
    let a = fingerprint_text(mtime_ms, size, false);
    let b = fingerprint_text(mtime_ms, size, true);
    assert(a.last() == '0');
    assert(b.last() == '1');
}

proof fn lemma_first_occurrences_unique(s: Seq<Seq<char>>)
    ensures
        forall|i: int, j: int|
            0 <= i < j < first_occurrences(s).len() ==> path_comps(#[trigger] first_occurrences(s)[i]) != path_comps(
                #[trigger] first_occurrences(s)[j],
            ),
    decreases s.len(),
{
    if s.len() > 0 {
        let t = s.drop_last();
        lemma_first_occurrences_unique(t);
        let r = first_occurrences(t);
        if !comps_of(t).contains(path_comps(s.last())) {
            crate::search_path::lemma_first_occurrences_contains(t, path_comps(s.last()));
            let w = r.push(s.last());
            assert forall|i: int, j: int| 0 <= i < j < w.len() implies path_comps(#[trigger] w[i]) != path_comps(
                #[trigger] w[j],
            ) by {
                assert(w[i] == r[i]);
                if j == r.len() {
                    if path_comps(r[i]) == path_comps(s.last()) {
                        assert(comps_of(r)[i] == path_comps(s.last()));
                        assert(comps_of(r).contains(path_comps(s.last())));
                    }
                } else {
                    assert(w[j] == r[j]);
                }
            }
        }
    }
}

/// The merged search path names every path of its input and none twice:
/// entries naming the same path (as std compares paths) count as one.
pub proof fn law_merge_paths_dedups(s: Seq<Seq<char>>, x: Seq<char>)
    ensures
        comps_of(first_occurrences(s)).contains(path_comps(x)) == comps_of(s).contains(path_comps(x)),
        forall|i: int, j: int|
            0 <= i < j < first_occurrences(s).len() ==> path_comps(#[trigger] first_occurrences(s)[i]) != path_comps(
                #[trigger] first_occurrences(s)[j],
            ),
{
    crate::search_path::lemma_first_occurrences_contains(s, path_comps(x));
    lemma_first_occurrences_unique(s);
}

proof fn lemma_positions_of_rank(groups: Seq<JobGroup>, n: int, k: u8)
    requires
        0 <= n <= groups.len(),
        groups.len() <= usize::MAX,
    ensures
        forall|t: int| 0 <= t < positions_of_rank(groups, n, k).len() ==> {
            let p = #[trigger] positions_of_rank(groups, n, k)[t];
            &&& 0 <= p < n
            &&& group_rank(groups[p as int]) == k
        },
        forall|t: int, u: int|
            0 <= t < u < positions_of_rank(groups, n, k).len() ==> #[trigger] positions_of_rank(groups, n, k)[t]
                < #[trigger] positions_of_rank(groups, n, k)[u],
        forall|p: int| 0 <= p < n && group_rank(groups[p]) == k ==> #[trigger] positions_of_rank(groups, n, k).contains(
            p as usize,
        ),
    decreases n,
{
    if n > 0 {
        lemma_positions_of_rank(groups, n - 1, k);
        let prev = positions_of_rank(groups, n - 1, k);
        if group_rank(groups[n - 1]) == k {
            let cur = prev.push((n - 1) as usize);
            assert forall|p: int| 0 <= p < n && group_rank(groups[p]) == k implies #[trigger] cur.contains(p as usize) by {
                if p == n - 1 {
                    assert(cur[prev.len() as int] == (n - 1) as usize);
                } else {
                    assert(prev.contains(p as usize));
                    let t = choose|t: int| 0 <= t < prev.len() && prev[t] == p as usize;
                    assert(cur[t] == p as usize);
                }
            }
        }
    }
}

/// The job list is ordered by group rank (ready for review first,
/// completed last) and lists every job exactly once.
pub proof fn law_job_order_sorted_permutation(groups: Seq<JobGroup>)
    requires
        groups.len() <= usize::MAX,
    ensures
        stable_group_order(groups).len() == groups.len(),
        forall|t: int, u: int|
            0 <= t < u < stable_group_order(groups).len() ==> group_rank(
                groups[#[trigger] stable_group_order(groups)[t] as int],
            ) <= group_rank(groups[#[trigger] stable_group_order(groups)[u] as int]),
        forall|p: int| 0 <= p < groups.len() ==> #[trigger] stable_group_order(groups).contains(p as usize),
{
    let n = groups.len() as int;
    lemma_positions_of_rank(groups, n, 0);
    lemma_positions_of_rank(groups, n, 1);
    lemma_positions_of_rank(groups, n, 2);
    lemma_positions_of_rank(groups, n, 3);
    let a = positions_of_rank(groups, n, 0);
    let b = positions_of_rank(groups, n, 1);
    let c = positions_of_rank(groups, n, 2);
    let d = positions_of_rank(groups, n, 3);
    let r = stable_group_order(groups);
    assert(r == a + b + c + d);
    assert forall|t: int, u: int| 0 <= t < u < r.len() implies group_rank(groups[#[trigger] r[t] as int]) <= group_rank(
        groups[#[trigger] r[u] as int],
    ) by {
        let rank_at = |x: int|
            if x < a.len() {
                0u8
            } else if x < a.len() + b.len() {
                1u8
            } else if x < a.len() + b.len() + c.len() {
                2u8
            } else {
                3u8
            };
        assert forall|x: int| 0 <= x < r.len() implies group_rank(groups[r[x] as int]) == rank_at(x) by {
            if x < a.len() {
                assert(r[x] == a[x]);
            } else if x < a.len() + b.len() {
                assert(r[x] == b[x - a.len()]);
            } else if x < a.len() + b.len() + c.len() {
                assert(r[x] == c[x - a.len() - b.len()]);
            } else {
                assert(r[x] == d[x - a.len() - b.len() - c.len()]);
            }
        }
        assert(group_rank(groups[r[t] as int]) == rank_at(t));
        assert(group_rank(groups[r[u] as int]) == rank_at(u));
    }
    assert forall|p: int| 0 <= p < groups.len() implies #[trigger] r.contains(p as usize) by {
        let k = group_rank(groups[p]);
        if k == 0 {
            assert(a.contains(p as usize));
            let t = choose|t: int| 0 <= t < a.len() && a[t] == p as usize;
            assert(r[t] == p as usize);
        } else if k == 1 {
            assert(b.contains(p as usize));
            let t = choose|t: int| 0 <= t < b.len() && b[t] == p as usize;
            assert(r[a.len() + t] == p as usize);
        } else if k == 2 {
            assert(c.contains(p as usize));
            let t = choose|t: int| 0 <= t < c.len() && c[t] == p as usize;
            assert(r[a.len() + b.len() + t] == p as usize);
        } else {
            assert(d.contains(p as usize));
            let t = choose|t: int| 0 <= t < d.len() && d[t] == p as usize;
            assert(r[a.len() + b.len() + c.len() + t] == p as usize);
        }
    }
    lemma_order_len(groups, n);
}

proof fn lemma_order_len(groups: Seq<JobGroup>, n: int)
    requires
        0 <= n <= groups.len(),
    ensures
        positions_of_rank(groups, n, 0).len() + positions_of_rank(groups, n, 1).len() + positions_of_rank(groups, n, 2).len()
            + positions_of_rank(groups, n, 3).len() == n,
    decreases n,
{
    if n > 0 {
        lemma_order_len(groups, n - 1);
    }
}

/// A worktree whose listing failed for this page is neither dropped nor
/// marked exhausted: the next cursor keeps its old offset and the listing
/// goes on, so a transient failure loses no sessions.
pub proof fn law_failed_worktree_keeps_offset(
    o: WorktreeOffset,
    start: (usize, bool),
    fin: int,
    ss: Seq<SessionRef>,
)
    requires
        !start.1,
    ensures
        next_offset(o, start, true, fin, ss) == (offset_view(o), true),
{
}

/// The next cursor drops a worktree exactly when it has nothing left to
/// show: one that was not exhausted keeps the listing going while it
/// failed or still has sessions at or after its position at the end of
/// the page. One that gave nothing to this page and did not fail resumes
/// from its previous offset, so no session is skipped.
pub proof fn law_worktree_with_sessions_left_continues(
    o: WorktreeOffset,
    start: (usize, bool),
    failed: bool,
    fin: int,
    ss: Seq<SessionRef>,
)
    requires
        fin != start.0 ==> 0 < fin <= ss.len(),
    ensures
        next_offset(o, start, failed, fin, ss).1 <==> (!start.1 && (failed || fin < ss.len())),
        !start.1 && !failed && fin == start.0 && fin < ss.len() ==> next_offset(o, start, failed, fin, ss) == (
            offset_view(o),
            true,
        ),
        !start.1 && !failed && fin != start.0 && fin < ss.len() ==> next_offset(o, start, failed, fin, ss).0
            == OffsetView::AfterMtime(ss[fin - 1].last_modified, ss[fin - 1].id@),
{
}

/// An exhausted worktree stays exhausted.
pub proof fn law_exhausted_worktree_stays_exhausted(
    o: WorktreeOffset,
    start: (usize, bool),
    failed: bool,
    fin: int,
    ss: Seq<SessionRef>,
)
    requires
        start.1,
    ensures
        next_offset(o, start, failed, fin, ss) == (OffsetView::Exhausted, false),
{
}

/// The decimal text of `n` is a run of digits whose value is `n`.
proof fn lemma_dec_nat_digits(n: nat)
    ensures
        dec_nat(n).len() > 0,
        all_digits(dec_nat(n)),
        digits_value(dec_nat(n)) == n,
    decreases n,
{
    let d = dec_nat(n);
    if n < 10 {
        assert(d =~= seq![digit_char(n)]);
        assert(d.drop_last() =~= Seq::<char>::empty());
        assert(digit_char(n) as int == 48 + n);
        assert(digits_value(d) == digits_value(d.drop_last()) * 10 + (d.last() as int - 48));
    } else {
        lemma_dec_nat_digits(n / 10);
        let h = dec_nat(n / 10);
        assert(d.drop_last() =~= h);
        assert(d.last() == digit_char(n % 10));
        assert(digit_char(n % 10) as int == 48 + n % 10);
        assert(digits_value(d) == digits_value(h) * 10 + (n % 10));
        assert((n / 10) * 10 + n % 10 == n) by (nonlinear_arith);
        assert forall|i: int| 0 <= i < d.len() implies is_digit(#[trigger] d[i]) by {
            if i < h.len() {
                assert(d[i] == h[i]);
            }
        }
    }
}

/// `str::parse::<usize>` reads back the decimal text of any `usize`.
proof fn lemma_parse_dec_nat(n: nat)
    requires
        n <= usize::MAX,
    ensures
        parsed_usize(dec_nat(n)) == Some(n as usize),
{
    lemma_dec_nat_digits(n);
    let d = dec_nat(n);
    assert(is_digit(d[0]));
    assert(without_plus(d) == d);
}

/// Following a list's next-page cursor resumes exactly where the page
/// ended: the next page starts at this page's end, so successive pages
/// neither overlap nor skip an item.
pub proof fn law_next_cursor_resumes_at_page_end(total: usize, offset: nat, page_size: nat, c: Seq<char>)
    requires
        next_page_cursor(total as nat, offset, page_size) == Some(c),
    ensures
        cursor_offset(Some(c)) == page_end(total as nat, offset, page_size),
        page_start(total as nat, cursor_offset(Some(c))) == page_end(total as nat, offset, page_size),
{
    let len = page_end(total as nat, offset, page_size) - page_start(total as nat, offset);
    assert(offset + len < total);
    lemma_parse_dec_nat((offset + len) as nat);
}

/// The position of the last `:` of `a + ":" + d` is just after `a` when
/// `d` has no colon.
proof fn lemma_last_colon_of_join(a: Seq<char>, d: Seq<char>)
    requires
        !d.contains(':'),
    ensures
        last_colon(a + seq![':'] + d) == a.len(),
    decreases d.len(),
{
    let s = a + seq![':'] + d;
    if d.len() == 0 {
        assert(s.last() == ':');
    } else {
        assert(s.last() == d.last());
        assert(d.drop_last().len() < d.len());
        assert forall|i: int| 0 <= i < d.drop_last().len() implies d.drop_last()[i] != ':' by {
            assert(d.drop_last()[i] == d[i]);
        }
        lemma_last_colon_of_join(a, d.drop_last());
        assert(s.drop_last() =~= a + seq![':'] + d.drop_last());
    }
}

/// A block id made of any chunk id (colons included) and the decimal text
/// of an index splits back into that chunk id and index.
pub proof fn law_block_id_round_trip(chunk_uuid: Seq<char>, index: usize)
    ensures
        block_id_parts(chunk_uuid + seq![':'] + dec_nat(index as nat)) == Some((chunk_uuid, index)),
{
    let d = dec_nat(index as nat);
    lemma_dec_nat_digits(index as nat);
    assert(!d.contains(':')) by {
        if d.contains(':') {
            let i = choose|i: int| 0 <= i < d.len() && d[i] == ':';
            assert(is_digit(d[i]));
        }
    }
    lemma_last_colon_of_join(chunk_uuid, d);
    let s = chunk_uuid + seq![':'] + d;
    assert(s.skip(chunk_uuid.len() as int + 1) =~= d);
    assert(s.take(chunk_uuid.len() as int) =~= chunk_uuid);
    lemma_parse_dec_nat(index as nat);
}

/// Groups stored under generations `g` at `t` are served to a reader that
/// captured the same generations at any reading before `t` plus the
/// time-to-live, to no reader that captured other generations, and to no
/// reader at all from `t` plus the time-to-live on.
pub proof fn law_groups_cache_read_after_write(
    groups: Arc<Vec<RepositoryGroup>>,
    g: GroupsGenerations,
    t: u64,
    reader: GroupsGenerations,
    t_read: u64,
)
    ensures
        reader == g && t_read < t + GROUPS_CACHE_TTL_MS ==> groups_served(
            Some(GroupsEntryView { groups, generations: g, created_ms: t }),
            reader,
            t_read,
        ) == Some(groups),
        reader != g ==> groups_served(
            Some(GroupsEntryView { groups, generations: g, created_ms: t }),
            reader,
            t_read,
        ) is None,
        t_read >= t + GROUPS_CACHE_TTL_MS ==> groups_served(
            Some(GroupsEntryView { groups, generations: g, created_ms: t }),
            reader,
            t_read,
        ) is None,
{
}

/// After a scan registers under its key it is the one registration of
/// that key, so the end of any scan of another generation under that key
/// (one it displaced) leaves it registered.
pub proof fn law_displaced_scan_cannot_remove_successor<H>(s: Seq<ScanRecord<H>>, rec: ScanRecord<H>, stale_generation: u64)
    requires
        keys_distinct(s),
        stale_generation != rec.generation,
    ensures
        record_of(without_key(s, rec.key).push(rec), rec.key) == Some(rec),
        !(record_of(without_key(s, rec.key).push(rec), rec.key) matches Some(r) && r.generation == stale_generation),
{
    lemma_without_key_distinct(s, rec.key);
    let w = without_key(s, rec.key);
    let t = w.push(rec);
    assert(t[w.len() as int].key == rec.key);
    let c = choose|i: int| 0 <= i < t.len() && #[trigger] t[i].key == rec.key;
    if c < w.len() {
        assert(t[c] == w[c]);
        assert(w[c].key != rec.key);
    }
    assert(c == w.len());
}

proof fn lemma_unpicked_exact<H>(s: Seq<ScanRecord<H>>, sel: ScanSelector, r: ScanRecord<H>)
    ensures
        unpicked(s, sel).contains(r) <==> (s.contains(r) && !selects(sel, r)),
    decreases s.len(),
{
    if s.len() > 0 {
        let t = s.drop_last();
        let u = unpicked(t, sel);
        lemma_unpicked_exact(t, sel, r);
        assert(s =~= t.push(s.last()));
        if s.contains(r) && !selects(sel, r) && !t.contains(r) {
            let j = choose|j: int| 0 <= j < s.len() && s[j] == r;
            if j < t.len() {
                assert(t[j] == r);
            }
            assert(r == s.last());
            assert(u.push(s.last())[u.len() as int] == r);
        }
        if t.contains(r) {
            let j = choose|j: int| 0 <= j < t.len() && t[j] == r;
            assert(s[j] == r);
        }
        if !selects(sel, s.last()) {
            if u.contains(r) {
                let k = choose|k: int| 0 <= k < u.len() && u[k] == r;
                assert(u.push(s.last())[k] == r);
            }
            if u.push(s.last()).contains(r) && !u.contains(r) {
                let k = choose|k: int| 0 <= k < u.push(s.last()).len() && u.push(s.last())[k] == r;
                if k < u.len() {
                    assert(u[k] == r);
                }
                assert(r == s.last());
                assert(s[s.len() - 1] == r);
            }
        }
    }
}

/// Aborting the scans of a context (or of a backend kind) leaves none of
/// them registered and keeps every other scan.
pub proof fn law_abort_removes_exactly_selected<H>(s: Seq<ScanRecord<H>>, sel: ScanSelector, r: ScanRecord<H>)
    ensures
        selects(sel, r) ==> !unpicked(s, sel).contains(r),
        s.contains(r) && !selects(sel, r) ==> unpicked(s, sel).contains(r),
{
    lemma_unpicked_exact(s, sel, r);
}

/// Every subagent that may be shown under a session is shown, and each
/// subagent id at most once, whichever directory it was found in.
pub proof fn law_each_subagent_shown_once(items: Seq<(Seq<char>, bool)>)
    ensures
        forall|i: int, j: int|
            0 <= i < j < shown_ids(items).len() ==> #[trigger] shown_ids(items)[i] != #[trigger] shown_ids(items)[j],
        forall|k: int| 0 <= k < items.len() && (#[trigger] items[k]).1 ==> shown_ids(items).contains(items[k].0),
    decreases items.len(),
{
    if items.len() > 0 {
        let t = items.drop_last();
        law_each_subagent_shown_once(t);
        let ids = shown_ids(t);
        let l = items.last();
        assert forall|k: int| 0 <= k < items.len() && (#[trigger] items[k]).1 implies shown_ids(items).contains(
            items[k].0,
        ) by {
            if k < t.len() {
                assert(t[k] == items[k]);
                assert(ids.contains(items[k].0));
                let m = choose|m: int| 0 <= m < ids.len() && ids[m] == items[k].0;
                if l.1 && !ids.contains(l.0) {
                    assert(ids.push(l.0)[m] == items[k].0);
                }
            } else {
                if !ids.contains(l.0) {
                    assert(ids.push(l.0)[ids.len() as int] == l.0);
                }
            }
        }
        if l.1 && !ids.contains(l.0) {
            let r = ids.push(l.0);
            assert forall|i: int, j: int| 0 <= i < j < r.len() implies #[trigger] r[i] != #[trigger] r[j] by {
                if j == ids.len() {
                    assert(r[i] == ids[i]);
                    if ids[i] == l.0 {
                        assert(ids.contains(l.0));
                    }
                } else {
                    assert(r[i] == ids[i]);
                    assert(r[j] == ids[j]);
                }
            }
        }
    }
}

/// A dead-connection monitor attached before a context change never
/// disconnects afterwards: every change moves the context generation, so
/// the generation the monitor captured no longer matches.
pub proof fn law_stale_monitor_cannot_disconnect(captured: u64, watched: Seq<char>, active: Option<Seq<char>>)
    ensures
        !self_heal_ok(captured, bump(captured), watched, active),
{
}

/// Whatever calls a parsed-message cache has seen, its keys are unique and
/// it holds at most its capacity (one for a capacity of zero); a write keeps
/// this, puts the written entry first, keeps the size when the key was
/// present, and when a new key meets a full cache evicts exactly its least
/// recently used entry.
pub proof fn law_parsed_cache_insert_bounded<M>(
    c: ParsedMessageCache<M>,
    k: ParsedKey,
    v: (FileSignature, Seq<M>),
)
    requires
        c.wf(),
    ensures
        keys_unique(c.order()),
        c.order().len() <= if c.cap() == 0 { 1 } else { c.cap() },
        keys_unique(lru_insert(c.order(), c.cap(), k, v)),
        lru_insert(c.order(), c.cap(), k, v).len() <= if c.cap() == 0 { 1 } else { c.cap() },
        lru_insert(c.order(), c.cap(), k, v)[0] == (k, v),
        has_key(c.order(), k) ==> lru_insert(c.order(), c.cap(), k, v).len() == c.order().len(),
        !has_key(c.order(), k) && c.order().len() >= c.cap() && c.order().len() > 0 ==> lru_insert(
            c.order(),
            c.cap(),
            k,
            v,
        ) == seq![(k, v)] + c.order().drop_last(),
{
    let s = c.order();
    law_lru_read_after_write(s, c.cap(), k, v);
    law_lru_capacity(s, c.cap(), k, v);
    if has_key(s, k) {
        lemma_key_index(s, k);
    }
}

/// A filtered listing returns the first matching sessions, in order, up
/// to the limit (at least one): an entry is returned exactly when it
/// passes every filter and fewer matching entries than the limit come
/// before it.
pub proof fn law_listing_takes_first_matches(f: SessionListFilter, es: Seq<ListedSession>)
    ensures
        forall|i: int|
            #![trigger listing_taken(f, es).contains(i)]
            listing_taken(f, es).contains(i) <==> (0 <= i < es.len() && session_matches(f, es[i]) && match_count(
                f,
                es.take(i),
            ) < effective_limit(f)),
        forall|a: int, b: int|
            0 <= a < b < listing_taken(f, es).len() ==> #[trigger] listing_taken(f, es)[a] < #[trigger] listing_taken(
                f,
                es,
            )[b],
        listing_taken(f, es).len() == if match_count(f, es) < effective_limit(f) {
            match_count(f, es) as int
        } else {
            effective_limit(f)
        },
    decreases es.len(),
{
    lemma_listing_taken(f, es);
}

proof fn lemma_listing_taken(f: SessionListFilter, es: Seq<ListedSession>)
    ensures
        forall|i: int|
            #![trigger listing_taken(f, es).contains(i)]
            listing_taken(f, es).contains(i) <==> (0 <= i < es.len() && session_matches(f, es[i]) && match_count(
                f,
                es.take(i),
            ) < effective_limit(f)),
        forall|k: int| 0 <= k < listing_taken(f, es).len() ==> 0 <= #[trigger] listing_taken(f, es)[k] < es.len(),
        forall|a: int, b: int|
            0 <= a < b < listing_taken(f, es).len() ==> #[trigger] listing_taken(f, es)[a] < #[trigger] listing_taken(
                f,
                es,
            )[b],
        listing_taken(f, es).len() == if match_count(f, es) < effective_limit(f) {
            match_count(f, es) as int
        } else {
            effective_limit(f)
        },
    decreases es.len(),
{
    if es.len() > 0 {
        let t = es.drop_last();
        let n = es.len() as int;
        lemma_listing_taken(f, t);
        let s = listing_taken(f, t);
        assert(es.take(n - 1) =~= t);
        assert forall|i: int| 0 <= i < n - 1 implies #[trigger] es.take(i) == t.take(i) && es[i] == t[i] by {
            assert(es.take(i) =~= t.take(i));
        }
        let stopped = s.len() > 0 && s.len() >= limit_value(f);
        assert(stopped == (s.len() >= effective_limit(f)));
        let r = listing_taken(f, es);
        if !stopped && session_matches(f, es.last()) {
            assert(r == s.push(n - 1));
            assert forall|i: int| #![trigger r.contains(i)] r.contains(i) <==> (0 <= i < n && session_matches(f, es[i])
                && match_count(f, es.take(i)) < effective_limit(f)) by {
                if r.contains(i) {
                    let k = choose|k: int| 0 <= k < r.len() && r[k] == i;
                    if k < s.len() {
                        assert(s[k] == i);
                        assert(s.contains(i));
                    }
                }
                if 0 <= i < n - 1 && session_matches(f, es[i]) && match_count(f, es.take(i)) < effective_limit(f) {
                    assert(s.contains(i));
                    let k = choose|k: int| 0 <= k < s.len() && s[k] == i;
                    assert(r[k] == i);
                }
                if i == n - 1 {
                    assert(r[s.len() as int] == i);
                }
            }
            assert forall|k: int| 0 <= k < r.len() implies 0 <= #[trigger] r[k] < n by {
                if k < s.len() {
                    assert(r[k] == s[k]);
                }
            }
            assert forall|a: int, b: int| 0 <= a < b < r.len() implies #[trigger] r[a] < #[trigger] r[b] by {
                assert(r[a] == s[a]);
                if b < s.len() {
                    assert(r[b] == s[b]);
                }
            }
        } else {
            assert(r == s);
            assert forall|i: int| #![trigger r.contains(i)] r.contains(i) <==> (0 <= i < n && session_matches(f, es[i])
                && match_count(f, es.take(i)) < effective_limit(f)) by {
                if r.contains(i) {
                    let k = choose|k: int| 0 <= k < s.len() && s[k] == i;
                    assert(0 <= s[k] < n - 1);
                }
            }
        }
    }
}

} // verus!
