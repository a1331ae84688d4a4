//! Properties of the picker that span several calls or every state.
use vstd::prelude::*;
use vstd::set_lib::lemma_len_subset;
use crate::app::{
    key_response, key_step, lowered_names, AppView, KeyCode, KeyEvent, KeyEventKind, KeyModifiers,
};
use crate::matching::{is_match_list, key_le, lemma_key_trans, rank};
use crate::paths::path_components;
use crate::catalog::{executable_views, help_spec, trim_spec, FileInfo};
use crate::cursor::{all_digits, cursor_row_spec, digits_value, parse_u16_spec};
use vstd::utf8::{partial_valid_utf8, partial_valid_utf8_extend_ascii_block, valid_utf8};
use vstd::utf8::is_ascii_chars;
use crate::text::{ascii_lower, contains_chars, has_prefix, lemma_contains_trans, lemma_lex_antisym, lemma_lex_refl, lex_le, lowercase};

verus! {

proof fn lemma_key_refl(a: Seq<char>, q: Seq<char>)
    ensures
        key_le(a, a, q),
{
    lemma_lex_refl(a);
}

proof fn lemma_key_antisym(a: Seq<char>, b: Seq<char>, q: Seq<char>)
    requires
        key_le(a, b, q),
        key_le(b, a, q),
    ensures
        a == b,
{
    assert(rank(a, q) == rank(b, q));
    lemma_lex_antisym(a, b);
}

/// The name at position `k` of one match list is listed no later than the
/// name at position `k` of another list of the same matches.
proof fn lemma_position_le(names: Seq<Seq<char>>, q: Seq<char>, m1: Seq<usize>, m2: Seq<usize>, k: int)
    requires
        is_match_list(names, q, m1),
        is_match_list(names, q, m2),
        m1.len() == m2.len(),
        0 <= k < m1.len(),
    ensures
        key_le(names[m2[k] as int], names[m1[k] as int], q),
{
    let n1 = names[m1[k] as int];
    let n2 = names[m2[k] as int];
    if !key_le(n2, n1, q) {
        let a = m1.take(k + 1).to_set();
        let b = m2.take(k).to_set();
        assert forall|x: usize| a.contains(x) implies b.contains(x) by {
            let j = choose|j: int| 0 <= j < k + 1 && #[trigger] m1.take(k + 1)[j] == x;
            assert(m1[j] == x);
            if j < k {
                assert(key_le(names[m1[j] as int], names[m1[k] as int], q));
            } else {
                lemma_key_refl(n1, q);
            }
            assert(m1[j] < names.len() && crate::text::contains_chars(names[x as int], q));
            assert(m2.contains(x));
            let i = choose|i: int| 0 <= i < m2.len() && #[trigger] m2[i] == x;
            if i >= k {
                if i > k {
                    assert(key_le(names[m2[k] as int], names[m2[i] as int], q));
                } else {
                    lemma_key_refl(n2, q);
                }
                lemma_key_trans(n2, names[x as int], n1, q);
            }
            assert(m2.take(k)[i] == x);
        }
        assert(m1.take(k + 1).no_duplicates()) by {
            assert forall|i: int, j: int| 0 <= i < j < k + 1 implies #[trigger] m1.take(k + 1)[i] != #[trigger] m1.take(k + 1)[j] by {
                assert(m1[i] != m1[j]);
            }
        }
        assert(m2.take(k).no_duplicates()) by {
            assert forall|i: int, j: int| 0 <= i < j < k implies #[trigger] m2.take(k)[i] != #[trigger] m2.take(k)[j] by {
                assert(m2[i] != m2[j]);
            }
        }
        m1.take(k + 1).unique_seq_to_set();
        m2.take(k).unique_seq_to_set();
        lemma_len_subset(a, b);
    }
}

/// Two lists of the matches of the same query over the same commands hold
/// the same commands, and the same lower-cased name at every position: the
/// listing is fixed except in the order of commands whose lower-cased names
/// are equal.
pub proof fn law_match_lists_agree(names: Seq<Seq<char>>, q: Seq<char>, m1: Seq<usize>, m2: Seq<usize>)
    requires
        is_match_list(names, q, m1),
        is_match_list(names, q, m2),
    ensures
        m1.to_set() == m2.to_set(),
        m1.len() == m2.len(),
        forall|k: int| 0 <= k < m1.len() ==> #[trigger] names[m1[k] as int] == names[m2[k] as int],
{
    assert(m1.to_set() =~= m2.to_set()) by {
        assert forall|x: usize| m1.to_set().contains(x) implies m2.to_set().contains(x) by {
            let j = choose|j: int| 0 <= j < m1.len() && #[trigger] m1[j] == x;
            assert(m1[j] < names.len());
        }
        assert forall|x: usize| m2.to_set().contains(x) implies m1.to_set().contains(x) by {
            let j = choose|j: int| 0 <= j < m2.len() && #[trigger] m2[j] == x;
            assert(m2[j] < names.len());
        }
    }
    m1.unique_seq_to_set();
    m2.unique_seq_to_set();
    assert forall|k: int| 0 <= k < m1.len() implies #[trigger] names[m1[k] as int] == names[m2[k] as int] by {
        lemma_position_le(names, q, m1, m2, k);
        lemma_position_le(names, q, m2, m1, k);
        lemma_key_antisym(names[m1[k] as int], names[m2[k] as int], q);
    }
}

/// A command whose lower-cased name is the lower-cased query is listed
/// first.
pub proof fn law_exact_match_first(a: AppView, i: usize)
    requires
        a.well_formed(),
        0 <= i < a.commands.len(),
        lowered_names(a.commands)[i as int] == lowercase(a.query),
    ensures
        a.matches.len() > 0,
        lowered_names(a.commands)[a.matches[0] as int] == lowercase(a.query),
{
    let names = lowered_names(a.commands);
    let q = lowercase(a.query);
    assert(names[i as int].subrange(0, q.len() as int) =~= q);
    assert(crate::text::occurs_at(names[i as int], q, 0));
    assert(a.matches.contains(i));
    let k = choose|k: int| 0 <= k < a.matches.len() && a.matches[k] == i;
    if k > 0 {
        assert(key_le(names[a.matches[0] as int], names[a.matches[k] as int], q));
    }
}

/// A longer query never matches more: when `q1` occurs in `q2`, every
/// match of `q2` is a match of `q1`.
pub proof fn law_longer_query_narrows(
    names: Seq<Seq<char>>,
    q1: Seq<char>,
    m1: Seq<usize>,
    q2: Seq<char>,
    m2: Seq<usize>,
)
    requires
        is_match_list(names, q1, m1),
        is_match_list(names, q2, m2),
        contains_chars(q2, q1),
    ensures
        m2.to_set().subset_of(m1.to_set()),
{
    assert forall|x: usize| m2.to_set().contains(x) implies m1.to_set().contains(x) by {
        let j = choose|j: int| 0 <= j < m2.len() && #[trigger] m2[j] == x;
        assert(m2[j] < names.len());
        lemma_contains_trans(names[x as int], q2, q1);
        assert(m1.contains(x));
    }
}

/// Typing a character never adds a match, as long as the lower-cased query
/// before it begins the lower-cased query after it (so for all ASCII text;
/// Unicode case rules that look at the next letter, such as the final sigma,
/// can break this).
pub proof fn law_typing_narrows(a0: AppView, c: char, a1: AppView)
    requires
        a0.well_formed(),
        key_step(a0, plain_press(KeyCode::Char(c)), a1),
        has_prefix(lowercase(a0.query.push(c)), lowercase(a0.query)),
    ensures
        a1.matches.to_set().subset_of(a0.matches.to_set()),
{
    let q1 = lowercase(a0.query);
    let q2 = lowercase(a0.query.push(c));
    assert(crate::text::occurs_at(q2, q1, 0));
    law_longer_query_narrows(lowered_names(a0.commands), q1, a0.matches, q2, a1.matches);
}

/// Typing an ASCII character after an ASCII query never adds a match.
pub proof fn law_typing_narrows_ascii(a0: AppView, c: char, a1: AppView)
    requires
        a0.well_formed(),
        is_ascii_chars(a0.query),
        '\0' <= c && c <= '\u{7f}',
        key_step(a0, plain_press(KeyCode::Char(c)), a1),
    ensures
        a1.matches.to_set().subset_of(a0.matches.to_set()),
{
    let q = a0.query;
    let q2 = q.push(c);
    assert(is_ascii_chars(q2)) by {
        assert forall|i: int| 0 <= i < q2.len() implies '\0' <= #[trigger] q2[i] <= '\u{7f}' by {
            if i < q.len() {
                assert(q2[i] == q[i]);
            }
        }
    }
    assert(a1.query == q2);
    assert(lowercase(q2) == ascii_lower(q2));
    assert(lowercase(q) == ascii_lower(q));
    assert(ascii_lower(q2).subrange(0, ascii_lower(q).len() as int) =~= ascii_lower(q));
    assert(crate::text::occurs_at(lowercase(q2), lowercase(q), 0));
    law_typing_narrows(a0, c, a1);
}

/// A key press of `code` with no modifier held.
pub open spec fn plain_press(code: KeyCode) -> KeyEvent {
    KeyEvent { code, modifiers: KeyModifiers { control: false, alt: false }, kind: KeyEventKind::Press }
}

/// Typing a character and erasing it gives back the query, and the same
/// matches, listed with the same names, with the selection on the first.
pub proof fn law_type_then_erase(a0: AppView, c: char, a1: AppView, backspace: KeyEvent, a2: AppView)
    requires
        a0.well_formed(),
        key_step(a0, plain_press(KeyCode::Char(c)), a1),
        backspace.code == KeyCode::Backspace,
        backspace.kind == KeyEventKind::Press,
        key_step(a1, backspace, a2),
    ensures
        a2.query == a0.query,
        a2.commands == a0.commands,
        a2.matches.to_set() == a0.matches.to_set(),
        a2.matches.len() == a0.matches.len(),
        forall|k: int|
            0 <= k < a2.matches.len() ==> #[trigger] lowered_names(a2.commands)[a2.matches[k] as int]
                == lowered_names(a0.commands)[a0.matches[k] as int],
        a2.selected == 0,
        a2.selection == a0.selection,
        a2.help == a0.help,
{
    assert(a0.query.push(c).drop_last() =~= a0.query);
    law_match_lists_agree(lowered_names(a0.commands), lowercase(a0.query), a2.matches, a0.matches);
}

/// Escape and Control-C always end the picker, and nothing is fetched then.
pub proof fn law_escape_exits(a: AppView, key: KeyEvent, b: AppView)
    requires
        key.kind == KeyEventKind::Press,
        key.code == KeyCode::Esc || (key.code == KeyCode::Char('c') && key.modifiers.control),
        key_step(a, key, b),
    ensures
        b.should_exit,
        b.query == a.query,
        b.selection == a.selection,
        key_response(key, b) is None,
{
}

/// Enter ends the picker exactly when some command matches, choosing the
/// highlighted one.
pub proof fn law_enter_chooses_highlighted(a: AppView, key: KeyEvent, b: AppView)
    requires
        a.well_formed(),
        key.kind == KeyEventKind::Press,
        key.code == KeyCode::Enter,
        key_step(a, key, b),
    ensures
        b.should_exit == (a.matches.len() > 0),
        a.matches.len() > 0 ==> b.selection == Some(
            a.commands[a.matches[a.selected] as int].name@,
        ),
        key_response(key, b) == (if b.should_exit { None } else { a.help_request() }),
{
}

/// Repeats and releases of keys change nothing and fetch nothing.
pub proof fn law_only_presses_count(a: AppView, key: KeyEvent, b: AppView)
    requires
        key.kind != KeyEventKind::Press,
        key_step(a, key, b),
    ensures
        b == a,
        key_response(key, b) is None,
{
}

/// Every key keeps the picker well formed: the matches stay those of the
/// query and the selection stays on one of them.
pub proof fn law_keys_keep_well_formed(a: AppView, key: KeyEvent, b: AppView)
    requires
        a.well_formed(),
        key_step(a, key, b),
    ensures
        b.well_formed(),
{
}

/// Moving down and then up comes back to the same state, unless the
/// selection was already on the last match.
pub proof fn law_down_then_up(a: AppView, down: KeyEvent, b: AppView, up: KeyEvent, c: AppView)
    requires
        a.well_formed(),
        down.kind == KeyEventKind::Press,
        down.code == KeyCode::Down,
        up.kind == KeyEventKind::Press,
        up.code == KeyCode::Up,
        key_step(a, down, b),
        key_step(b, up, c),
        a.selected + 1 < a.matches.len(),
    ensures
        c == a,
{
}

/// Once the help of the highlighted command is cached, under its path or any
/// path with the same components, it is what the picker shows, and it is not
/// asked for again.
pub proof fn law_cached_help_is_served(a: AppView, path: Seq<char>, help: Seq<char>)
    requires
        a.selected_entry() is Some,
        path_components(a.selected_entry()->0.path@) == path_components(path),
    ensures
        (AppView { help: a.help.insert(path_components(path), help), ..a }).selected_help() == Some(
            help,
        ),
        (AppView { help: a.help.insert(path_components(path), help), ..a }).help_request() is None,
{
}


/// `s` begins with `p`.
pub open spec fn begins_with(s: Seq<char>, p: Seq<char>) -> bool {
    p.len() <= s.len() && s.subrange(0, p.len() as int) == p
}

/// Matches are listed in three groups: a name equal to the query, then the
/// names that begin with it, then all the other names that contain it; within
/// a group, in alphabetical order. So of two listed names, the later one is
/// exact only if the earlier one is, begins with the query only if the earlier
/// one does, and comes alphabetically no earlier when both are in one group.
pub proof fn law_listing_groups(names: Seq<Seq<char>>, q: Seq<char>, m: Seq<usize>, a: int, b: int)
    requires
        is_match_list(names, q, m),
        0 <= a < b < m.len(),
    ensures
        names[m[b] as int] == q ==> names[m[a] as int] == q,
        begins_with(names[m[b] as int], q) ==> begins_with(names[m[a] as int], q),
        (names[m[a] as int] == q) == (names[m[b] as int] == q) && begins_with(names[m[a] as int], q)
            == begins_with(names[m[b] as int], q) ==> lex_le(names[m[a] as int], names[m[b] as int]),
{
    assert(key_le(names[m[a] as int], names[m[b] as int], q));
}

/// Whenever a key press leaves the picker running, whatever the key, the
/// answer is the path of the highlighted command exactly when no help is
/// cached for a path with the same components, and nothing otherwise.
pub proof fn law_running_picker_asks_for_uncached_help(a: AppView, key: KeyEvent, b: AppView)
    requires
        key.kind == KeyEventKind::Press,
        key_step(a, key, b),
        !b.should_exit,
    ensures
        key_response(key, b) == (if 0 <= b.selected < b.matches.len() {
            if b.help.contains_key(path_components(b.commands[b.matches[b.selected] as int].path@)) {
                None
            } else {
                Some(b.commands[b.matches[b.selected] as int].path@)
            }
        } else {
            None
        }),
{
}

/// Every regular file with an execute bit (owner, group or other) is listed
/// as a command, whatever its other mode bits.
pub proof fn law_executable_files_are_listed(files: Seq<FileInfo>, i: int)
    requires
        0 <= i < files.len(),
        files[i].is_file,
        files[i].mode & 0o111u32 != 0,
    ensures
        executable_views(files).contains((files[i].name@, files[i].path@)),
    decreases files.len(),
{
    let rest = files.drop_last();
    if i < files.len() - 1 {
        assert(rest[i] == files[i]);
        law_executable_files_are_listed(rest, i);
        let k = choose|k: int| 0 <= k < executable_views(rest).len() && executable_views(rest)[k] == (files[i].name@, files[i].path@);
        if (files.last().is_file && files.last().mode & 0o111u32 != 0) {
            assert(executable_views(files)[k] == executable_views(rest)[k]);
        }
    } else {
        let v = executable_views(files);
        assert(v[v.len() - 1] == (files[i].name@, files[i].path@));
    }
}

/// Only regular files with an execute bit are listed: each listed name and
/// path is that of such an entry.
pub proof fn law_only_executable_files_are_listed(files: Seq<FileInfo>, k: int)
    requires
        0 <= k < executable_views(files).len(),
    ensures
        exists|i: int|
            0 <= i < files.len() && files[i].is_file && files[i].mode & 0o111u32 != 0
                && #[trigger] executable_views(files)[k] == (files[i].name@, files[i].path@),
    decreases files.len(),
{
    let rest = files.drop_last();
    let n = files.len() - 1;
    if k < executable_views(rest).len() {
        law_only_executable_files_are_listed(rest, k);
        let i = choose|i: int|
            0 <= i < rest.len() && rest[i].is_file && rest[i].mode & 0o111u32 != 0
                && #[trigger] executable_views(rest)[k] == (rest[i].name@, rest[i].path@);
        assert(rest[i] == files[i]);
        assert(executable_views(files)[k] == executable_views(rest)[k]);
    } else {
        assert(executable_views(files)[k] == (files[n].name@, files[n].path@));
    }
}

/// Two directories whose entries differ only in mode bits other than the
/// execute bits (setuid, setgid, sticky, read, write, file type) list the
/// same commands.
pub proof fn law_other_mode_bits_do_not_matter(f: Seq<FileInfo>, g: Seq<FileInfo>)
    requires
        f.len() == g.len(),
        forall|i: int|
            0 <= i < f.len() ==> (#[trigger] f[i]).name@ == g[i].name@ && f[i].path@ == g[i].path@
                && f[i].is_file == g[i].is_file && f[i].mode & 0o111u32 == g[i].mode & 0o111u32,
    ensures
        executable_views(f) == executable_views(g),
    decreases f.len(),
{
    if f.len() > 0 {
        let n = f.len() - 1;
        assert(f[n].name@ == g[n].name@);
        law_other_mode_bits_do_not_matter(f.drop_last(), g.drop_last());
    }
}

/// A command stopped at the time limit whose trimmed output is not empty
/// shows that output followed by the stop note, whether or not a stream was
/// also cut.
pub proof fn law_stopped_help_carries_the_note(text: Seq<char>, truncated: bool)
    requires
        trim_spec(text).len() > 0,
    ensures
        help_spec(text, true, truncated) == Ok::<Seq<char>, crate::catalog::HelpError>(
            trim_spec(text) + "\n\n[Stopped after 800 ms]"@,
        ),
        help_spec(text, true, true) == help_spec(text, true, false),
{
}

/// A command that finished in time shows its trimmed output, followed by the
/// truncation note exactly when a stream was cut; with nothing left after
/// trimming there is no help, and the error says whether the command was
/// stopped.
pub proof fn law_help_from_finished_output(text: Seq<char>, timed_out: bool, truncated: bool)
    ensures
        trim_spec(text).len() == 0 ==> help_spec(text, timed_out, truncated) == Err::<
            Seq<char>,
            crate::catalog::HelpError,
        >(if timed_out {
            crate::catalog::HelpError::TimedOut
        } else {
            crate::catalog::HelpError::NoText
        }),
        trim_spec(text).len() > 0 && !timed_out && truncated ==> help_spec(text, false, true) == Ok::<
            Seq<char>,
            crate::catalog::HelpError,
        >(trim_spec(text) + "\n\n[Output truncated at 64 KiB]"@),
        trim_spec(text).len() > 0 && !timed_out && !truncated ==> help_spec(text, false, false)
            == Ok::<Seq<char>, crate::catalog::HelpError>(trim_spec(text)),
{
}

/// The help output joins stdout and stderr: either one alone when the other
/// is empty, otherwise stdout, a newline, then stderr.
pub proof fn law_output_joins_stdout_then_stderr(out: Seq<u8>, err: Seq<u8>)
    ensures
        err.len() == 0 ==> crate::catalog::combined_spec(out, err) == out,
        out.len() == 0 ==> crate::catalog::combined_spec(out, err) == err,
        out.len() > 0 && err.len() > 0 ==> crate::catalog::combined_spec(out, err) == out + seq![
            0x0au8,
        ] + err,
{
}

/// The commands listed are exactly those whose name contains the query
/// somewhere, each listed once.
pub proof fn law_listed_exactly_the_containing_names(
    names: Seq<Seq<char>>,
    q: Seq<char>,
    m: Seq<usize>,
    i: usize,
)
    requires
        is_match_list(names, q, m),
        i < names.len(),
    ensures
        m.no_duplicates(),
        m.contains(i) <==> exists|k: int|
            0 <= k && k + q.len() <= names[i as int].len() && #[trigger] names[i as int].subrange(
                k,
                k + q.len(),
            ) == q,
{
    let n = names[i as int];
    if m.contains(i) {
        let j = choose|j: int| 0 <= j < m.len() && m[j] == i;
        assert(contains_chars(names[m[j] as int], q));
        assert(contains_chars(n, q));
        let k = choose|k: int| #[trigger] crate::text::occurs_at(n, q, k);
        assert(n.subrange(k, k + q.len()) == q);
    }
    if exists|k: int| 0 <= k && k + q.len() <= n.len() && #[trigger] n.subrange(k, k + q.len()) == q {
        let k = choose|k: int| 0 <= k && k + q.len() <= n.len() && #[trigger] n.subrange(k, k + q.len()) == q;
        assert(crate::text::occurs_at(n, q, k));
        assert(contains_chars(names[i as int], q));
    }
}

/// `n` zero digits.
pub open spec fn zeros(n: nat) -> Seq<u8> {
    Seq::new(n, |i: int| 0x30u8)
}

/// The decimal digits (ASCII) of a number, without leading zeros.
pub open spec fn decimal(n: nat) -> Seq<u8>
    decreases n,
{
    if n < 10 {
        seq![(0x30 + n) as u8]
    } else {
        decimal(n / 10).push((0x30 + n % 10) as u8)
    }
}

proof fn lemma_decimal(n: nat)
    ensures
        decimal(n).len() >= 1,
        forall|i: int| 0 <= i < decimal(n).len() ==> 0x30 <= #[trigger] decimal(n)[i] <= 0x39,
        digits_value(decimal(n)) == n,
    decreases n,
{
    if n < 10 {
        assert(decimal(n).drop_last() =~= Seq::<u8>::empty());
        assert(digits_value(Seq::<u8>::empty()) == 0);
        assert(decimal(n).last() == 0x30 + n);
        assert(digits_value(decimal(n)) == digits_value(decimal(n).drop_last()) * 10 + (decimal(
            n,
        ).last() - 0x30) as nat);
    } else {
        let d = decimal(n / 10);
        lemma_decimal(n / 10);
        assert(decimal(n).drop_last() =~= d);
        assert((n / 10) * 10 + n % 10 == n) by (nonlinear_arith);
        assert(decimal(n).last() == 0x30 + n % 10);
        assert(digits_value(decimal(n)) == digits_value(d) * 10 + (decimal(n).last() - 0x30) as nat);
        assert forall|i: int| 0 <= i < decimal(n).len() implies 0x30 <= #[trigger] decimal(n)[i] <= 0x39 by {
            if i < d.len() {
                assert(decimal(n)[i] == d[i]);
            }
        }
    }
}

/// Every row number parses: the terminal's answer `ESC [ row ; column R`
/// with the row and column in decimal gives the row counted from 0 for every
/// row from 1 to the largest `u16`, and nothing for row 0 or a larger row.
pub proof fn law_every_row_parses(row: nat, column: nat)
    ensures
        cursor_row_spec(
            seq![0x1bu8, 0x5bu8] + decimal(row) + seq![0x3bu8] + decimal(column) + seq![0x52u8],
        ) == (if 1 <= row <= u16::MAX {
            Some((row - 1) as u16)
        } else {
            None
        }),
{
    let dr = decimal(row);
    let dc = decimal(column);
    lemma_decimal(row);
    lemma_decimal(column);
    let r = seq![0x1bu8, 0x5bu8] + dr + seq![0x3bu8] + dc + seq![0x52u8];
    let body = r.subrange(2, r.len() - 1);
    assert(body =~= dr + seq![0x3bu8] + dc);
    let l = dr.len() as int;
    assert(body[l] == 0x3bu8);
    assert forall|j: int| 0 <= j < l implies body[j] != 0x3bu8 by {
        assert(body[j] == dr[j]);
    }
    assert(crate::cursor::is_first_index(body, 0x3bu8, l));
    let p = choose|p: int| crate::cursor::is_first_index(body, 0x3bu8, p);
    if p < l {
        assert(body[p] == dr[p]);
    } else if p > l {
        assert(body[l] != 0x3bu8);
    }
    assert(body.take(p) =~= dr);
    assert(all_digits(dr));
    assert(dr[0] != 0x2bu8);
    assert(parse_u16_spec(dr) == (if row <= u16::MAX {
        Some(row as u16)
    } else {
        None
    }));
    assert forall|i: int| 0 <= 0 <= i < r.len() <= r.len() implies #[trigger] vstd::utf8::is_leading_byte_width_1(r[i]) by {
        if 2 <= i < 2 + l {
            assert(r[i] == dr[i - 2]);
        } else if 3 + l <= i < 3 + l + dc.len() {
            assert(r[i] == dc[i - 3 - l]);
        }
    }
    assert(r.subrange(0, 0) =~= Seq::<u8>::empty());
    assert(valid_utf8(Seq::<u8>::empty()));
    assert(partial_valid_utf8(r, 0));
    partial_valid_utf8_extend_ascii_block(r, 0, r.len() as int);
    assert(r.subrange(0, r.len() as int) =~= r);
    assert(valid_utf8(r));
}

proof fn lemma_zeros_value(z: nat, d: Seq<u8>)
    ensures
        digits_value(zeros(z) + d) == digits_value(d),
    decreases d.len(),
{
    if d.len() == 0 {
        lemma_zeros_only(z);
        assert(zeros(z) + d =~= zeros(z));
    } else {
        lemma_zeros_value(z, d.drop_last());
        assert((zeros(z) + d).drop_last() =~= zeros(z) + d.drop_last());
    }
}

proof fn lemma_zeros_only(z: nat)
    ensures
        digits_value(zeros(z)) == 0,
    decreases z,
{
    if z > 0 {
        lemma_zeros_only((z - 1) as nat);
        assert(zeros(z).drop_last() =~= zeros((z - 1) as nat));
    }
}

/// A row is read as `u16::from_str` reads it: any number of leading zeros
/// and an optional `+` change nothing, and a number past the largest `u16` is
/// refused.
pub proof fn law_row_number_forms(n: nat, z: nat, plus: bool)
    ensures
        parse_u16_spec(
            (if plus {
                seq![0x2bu8]
            } else {
                Seq::empty()
            }) + zeros(z) + decimal(n),
        ) == (if n <= u16::MAX {
            Some(n as u16)
        } else {
            None
        }),
{
    lemma_decimal(n);
    lemma_zeros_value(z, decimal(n));
    let d = zeros(z) + decimal(n);
    let s = (if plus { seq![0x2bu8] } else { Seq::empty() }) + zeros(z) + decimal(n);
    assert forall|i: int| 0 <= i < d.len() implies 0x30 <= #[trigger] d[i] <= 0x39 by {
        if i >= z {
            assert(d[i] == decimal(n)[i - z]);
        }
    }
    assert(all_digits(d));
    assert(digits_value(d) == n);
    assert(d.len() >= 1);
    if plus {
        assert(s.drop_first() =~= d);
        assert(s[0] == 0x2bu8);
        assert(s.len() > 1);
    } else {
        assert(s =~= d);
        assert(s[0] != 0x2bu8);
    }
}

} // verus!
