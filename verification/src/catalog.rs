//! The command catalog: which directory entries are commands, how the
//! listings of the `PATH` directories are merged, and how the output of a
//! command's `--help` becomes the text shown in the preview.
use vstd::prelude::*;
use vstd::utf8::{decode_utf8, valid_utf8};
use crate::app::CommandEntry;
use crate::text::{
    chars_eq, chars_of, lemma_lex_antisym, lemma_lex_refl, lemma_lex_total, lemma_lex_trans,
    lex_le, lex_le_exec, lex_lt, string_of,
};

verus! {

/// The most bytes of help output kept from each of stdout and stderr.
pub const HELP_LIMIT: u64 = 32 * 1024;

/// Cuts what was read of a help stream (at most `HELP_LIMIT + 1` bytes) to
/// `HELP_LIMIT` bytes, and tells whether anything was cut.
pub fn read_limited(output: Vec<u8>) -> (r: (Vec<u8>, bool))
    ensures
        r.1 == (output@.len() > HELP_LIMIT),
        r.0@ == (if r.1 { output@.take(HELP_LIMIT as int) } else { output@ }),
{
    let mut output = output;
    let len: u64 = output.len() as u64;
    let truncated = len > HELP_LIMIT;
    output.truncate(HELP_LIMIT as usize);
    (output, truncated)
}

/// The help output of a command: stdout, then stderr on a line of its own.
pub open spec fn combined_spec(stdout: Seq<u8>, stderr: Seq<u8>) -> Seq<u8> {
    if stderr.len() == 0 {
        stdout
    } else if stdout.len() == 0 {
        stderr
    } else {
        stdout + seq![0x0au8] + stderr
    }
}

/// Joins the two output streams of a command.
pub fn combine_output(stdout: Vec<u8>, stderr: Vec<u8>) -> (r: Vec<u8>)
    ensures
        r@ == combined_spec(stdout@, stderr@),
{
    let mut output = stdout;
    let mut stderr = stderr;
    if !stderr.is_empty() {
        if !output.is_empty() {
            output.push(0x0a);
        }
        output.append(&mut stderr);
    }
    output
}

/// The characters with the Unicode `White_Space` property.
pub open spec fn is_white_space(c: char) -> bool {
    ||| ('\u{9}' <= c && c <= '\u{d}')
    ||| c == ' '
    ||| c == '\u{85}'
    ||| c == '\u{a0}'
    ||| c == '\u{1680}'
    ||| ('\u{2000}' <= c && c <= '\u{200a}')
    ||| c == '\u{2028}'
    ||| c == '\u{2029}'
    ||| c == '\u{202f}'
    ||| c == '\u{205f}'
    ||| c == '\u{3000}'
}

/// Whether a character is white space, as `char::is_whitespace` decides it:
/// it has the Unicode `White_Space` property.
fn char_is_whitespace(c: char) -> (r: bool)
    ensures
        r == is_white_space(c),
{
    ('\u{9}' <= c && c <= '\u{d}') || c == ' ' || c == '\u{85}' || c == '\u{a0}' || c == '\u{1680}'
        || ('\u{2000}' <= c && c <= '\u{200a}') || c == '\u{2028}' || c == '\u{2029}' || c
        == '\u{202f}' || c == '\u{205f}' || c == '\u{3000}'
}

/// The text without its leading white space.
pub open spec fn trim_start_spec(s: Seq<char>) -> Seq<char>
    decreases s.len(),
{
    if s.len() > 0 && is_white_space(s[0]) {
        trim_start_spec(s.drop_first())
    } else {
        s
    }
}

/// The text without its trailing white space.
pub open spec fn trim_end_spec(s: Seq<char>) -> Seq<char>
    decreases s.len(),
{
    if s.len() > 0 && is_white_space(s.last()) {
        trim_end_spec(s.drop_last())
    } else {
        s
    }
}

/// Trimming never makes a text longer.
pub proof fn lemma_trim_len(s: Seq<char>)
    ensures
        trim_spec(s).len() <= s.len(),
{
    lemma_trim_start_len(s);
    lemma_trim_end_len(trim_start_spec(s));
}

proof fn lemma_trim_start_len(s: Seq<char>)
    ensures
        trim_start_spec(s).len() <= s.len(),
    decreases s.len(),
{
    if s.len() > 0 && is_white_space(s[0]) {
        lemma_trim_start_len(s.drop_first());
    }
}

proof fn lemma_trim_end_len(s: Seq<char>)
    ensures
        trim_end_spec(s).len() <= s.len(),
    decreases s.len(),
{
    if s.len() > 0 && is_white_space(s.last()) {
        lemma_trim_end_len(s.drop_last());
    }
}

/// The text without leading and trailing white space, as `str::trim` gives it.
pub open spec fn trim_spec(s: Seq<char>) -> Seq<char> {
    trim_end_spec(trim_start_spec(s))
}

/// Removes leading and trailing white space.
pub fn trim_chars(s: &Vec<char>) -> (r: Vec<char>)
    ensures
        r@ == trim_spec(s@),
{
    let n = s.len();
    let mut a: usize = 0;
    assert(s@.skip(0) =~= s@);
    while a < n && char_is_whitespace(s[a])
        invariant
            a <= n == s@.len(),
            trim_start_spec(s@) == trim_start_spec(s@.skip(a as int)),
        decreases n - a,
    {
        assert(s@.skip(a as int).drop_first() =~= s@.skip(a + 1));
        a += 1;
    }
    let ghost t = s@.skip(a as int);
    assert(trim_start_spec(s@) == t);
    let mut b: usize = n;
    assert(t.take((n - a) as int) =~= t);
    while b > a && char_is_whitespace(s[b - 1])
        invariant
            a <= b <= n == s@.len(),
            t == s@.skip(a as int),
            trim_end_spec(t) == trim_end_spec(t.take(b - a)),
        decreases b - a,
    {
        assert(t.take(b - a).drop_last() =~= t.take(b - a - 1));
        b -= 1;
    }
    assert(trim_end_spec(t) == t.take(b - a));
    let mut r: Vec<char> = Vec::new();
    let mut i = a;
    while i < b
        invariant
            a <= i <= b <= n == s@.len(),
            r@ == s@.subrange(a as int, i as int),
        decreases b - i,
    {
        r.push(s[i]);
        assert(s@.subrange(a as int, i + 1) =~= s@.subrange(a as int, i as int).push(s@[i as int]));
        i += 1;
    }
    assert(t.take(b - a) =~= s@.subrange(a as int, b as int));
    r
}

/// What `String::from_utf8_lossy` gives for a byte string, as characters.
pub uninterp spec fn utf8_lossy(bytes: Seq<u8>) -> Seq<char>;

/// Decodes bytes as UTF-8 with `String::from_utf8_lossy`.
/// Trusted: the result is `utf8_lossy` of the bytes; as documented, valid
/// UTF-8 decodes to its characters; and there are no more characters than
/// bytes, since each character comes from at least one byte (a valid encoding
/// or an invalid sequence replaced by one U+FFFD). How invalid sequences are
/// cut is not stated.
#[verifier::external_body]
fn decode_lossy(bytes: &Vec<u8>) -> (r: Vec<char>)
    ensures
        r@ == utf8_lossy(bytes@),
        r@.len() <= bytes@.len(),
        valid_utf8(bytes@) ==> r@ == decode_utf8(bytes@),
{
    String::from_utf8_lossy(bytes).chars().collect()
}

/// Why a command's help could not be shown.
#[derive(Clone, Copy, Debug, PartialEq, Eq, Structural)]
pub enum HelpError {
    /// The command was stopped before it printed anything.
    TimedOut,
    /// The command finished without printing anything.
    NoText,
}

impl HelpError {
    /// The message for the error.
    pub fn message(&self) -> (r: &'static str)
        ensures
            *self == HelpError::TimedOut ==> r@ == "help command timed out"@,
            *self == HelpError::NoText ==> r@ == "help command returned no text"@,
    {
        match self {
            HelpError::TimedOut => "help command timed out",
            HelpError::NoText => "help command returned no text",
        }
    }
}

/// The help shown for a command's output text: the trimmed text, with a
/// note when the command was stopped or its output was cut; an error when
/// nothing is left after trimming.
pub open spec fn help_spec(text: Seq<char>, timed_out: bool, truncated: bool) -> Result<Seq<char>, HelpError> {
    let help = trim_spec(text);
    if help.len() == 0 {
        Err(if timed_out { HelpError::TimedOut } else { HelpError::NoText })
    } else if timed_out {
        Ok(help + "\n\n[Stopped after 800 ms]"@)
    } else if truncated {
        Ok(help + "\n\n[Output truncated at 64 KiB]"@)
    } else {
        Ok(help)
    }
}

/// The view of a help result.
pub open spec fn help_result_view(r: Result<String, HelpError>) -> Result<Seq<char>, HelpError> {
    match r {
        Ok(s) => Ok(s@),
        Err(e) => Err(e),
    }
}

/// The help to show for a command whose output decoded to `text`.
pub fn help_from_text(text: &Vec<char>, timed_out: bool, truncated: bool) -> (r: Result<String, HelpError>)
    ensures
        help_result_view(r) == help_spec(text@, timed_out, truncated),
{
    let trimmed = trim_chars(text);
    if trimmed.len() == 0 {
        return Err(if timed_out { HelpError::TimedOut } else { HelpError::NoText });
    }
    let mut help = string_of(&trimmed);
    if timed_out {
        help.append("\n\n[Stopped after 800 ms]");
    } else if truncated {
        help.append("\n\n[Output truncated at 64 KiB]");
    }
    Ok(help)
}

/// The help to show for a command, from what was read of its stdout and
/// stderr, whether each was cut at `HELP_LIMIT`, and whether the command had
/// to be stopped.
pub fn help_text(
    stdout: Vec<u8>,
    stdout_truncated: bool,
    stderr: Vec<u8>,
    stderr_truncated: bool,
    timed_out: bool,
) -> (r: Result<String, HelpError>)
    ensures
        help_result_view(r) == help_spec(
            utf8_lossy(combined_spec(stdout@, stderr@)),
            timed_out,
            stdout_truncated || stderr_truncated,
        ),
        help_result_view(r) matches Ok(h) ==> h.len() <= stdout@.len() + 1 + stderr@.len() + 30,
{
    let ghost n = stdout@.len() + 1 + stderr@.len();
    let output = combine_output(stdout, stderr);
    let text = decode_lossy(&output);
    let r = help_from_text(&text, timed_out, stdout_truncated || stderr_truncated);
    proof {
        lemma_trim_len(text@);
        reveal_strlit("\n\n[Stopped after 800 ms]");
        reveal_strlit("\n\n[Output truncated at 64 KiB]");
        assert(output@.len() <= n);
    }
    r
}

/// What the catalog reads of a directory entry: its file name, its path,
/// whether it is a regular file, and its permission bits.
#[derive(Clone, Debug, PartialEq, Eq)]
pub struct FileInfo {
    pub name: String,
    pub path: String,
    pub is_file: bool,
    pub mode: u32,
}

/// An entry is a command when it is a regular file that someone may execute.
pub open spec fn is_executable(f: FileInfo) -> bool {
    f.is_file && (f.mode & 0o111u32) != 0
}

/// Whether a directory entry is a command.
pub fn is_executable_file(f: &FileInfo) -> (r: bool)
    ensures
        r == is_executable(*f),
{
    f.is_file && (f.mode & 0o111u32) != 0
}

/// The contents of a name and path pair.
pub open spec fn pair_view(p: (String, String)) -> (Seq<char>, Seq<char>) {
    (p.0@, p.1@)
}

/// The contents of a list of name and path pairs.
pub open spec fn pairs_view(s: Seq<(String, String)>) -> Seq<(Seq<char>, Seq<char>)> {
    s.map_values(|p: (String, String)| pair_view(p))
}

/// The name and path of each command among the entries, in entry order.
pub open spec fn executable_views(files: Seq<FileInfo>) -> Seq<(Seq<char>, Seq<char>)>
    decreases files.len(),
{
    if files.len() == 0 {
        Seq::empty()
    } else {
        let rest = executable_views(files.drop_last());
        if is_executable(files.last()) {
            rest.push((files.last().name@, files.last().path@))
        } else {
            rest
        }
    }
}

/// The position of the first key not before `x` in sorted keys.
fn lower_bound(keys: &Vec<Vec<char>>, x: &Vec<char>) -> (p: usize)
    requires
        forall|a: int, b: int| 0 <= a < b < keys@.len() ==> #[trigger] lex_le(keys@[a]@, keys@[b]@),
    ensures
        p <= keys@.len(),
        forall|k: int| 0 <= k < p ==> !lex_le(x@, #[trigger] keys@[k]@),
        forall|k: int| p <= k < keys@.len() ==> lex_le(x@, #[trigger] keys@[k]@),
{
    let mut lo: usize = 0;
    let mut hi: usize = keys.len();
    while lo < hi
        invariant
            lo <= hi <= keys@.len(),
            forall|a: int, b: int| 0 <= a < b < keys@.len() ==> #[trigger] lex_le(keys@[a]@, keys@[b]@),
            forall|k: int| 0 <= k < lo ==> !lex_le(x@, #[trigger] keys@[k]@),
            forall|k: int| hi <= k < keys@.len() ==> lex_le(x@, #[trigger] keys@[k]@),
        decreases hi - lo,
    {
        let mid = lo + (hi - lo) / 2;
        if lex_le_exec(x, &keys[mid]) {
            proof {
                assert forall|k: int| mid <= k < keys@.len() implies lex_le(x@, #[trigger] keys@[k]@) by {
                    if mid < k {
                        assert(lex_le(keys@[mid as int]@, keys@[k]@));
                        lemma_lex_trans(x@, keys@[mid as int]@, keys@[k]@);
                    }
                }
            }
            hi = mid;
        } else {
            proof {
                assert forall|k: int| 0 <= k < mid + 1 implies !lex_le(x@, #[trigger] keys@[k]@) by {
                    if k < mid && lex_le(x@, keys@[k]@) {
                        assert(lex_le(keys@[k]@, keys@[mid as int]@));
                        lemma_lex_trans(x@, keys@[k]@, keys@[mid as int]@);
                    }
                }
            }
            lo = mid + 1;
        }
    }
    lo
}

/// The commands among a directory's entries, as name and path pairs ordered
/// by name.
pub fn executable_files(files: Vec<FileInfo>) -> (r: Vec<(String, String)>)
    ensures
        pairs_view(r@).to_multiset() == executable_views(files@).to_multiset(),
        forall|a: int, b: int| 0 <= a < b < r@.len() ==> lex_le(r@[a].0@, r@[b].0@),
{
    let mut r: Vec<(String, String)> = Vec::new();
    let mut keys: Vec<Vec<char>> = Vec::new();
    let mut i: usize = 0;
    assert(files@.take(0) =~= Seq::<FileInfo>::empty());
    assert(pairs_view(r@) =~= Seq::<(Seq<char>, Seq<char>)>::empty());
    while i < files.len()
        invariant
            i <= files@.len(),
            keys@.len() == r@.len(),
            forall|k: int| 0 <= k < r@.len() ==> #[trigger] keys@[k]@ == r@[k].0@,
            forall|a: int, b: int| 0 <= a < b < keys@.len() ==> #[trigger] lex_le(keys@[a]@, keys@[b]@),
            pairs_view(r@).to_multiset() == executable_views(files@.take(i as int)).to_multiset(),
        decreases files@.len() - i,
    {
        let f = &files[i];
        assert(files@.take(i + 1).drop_last() =~= files@.take(i as int));
        assert(files@.take(i + 1).last() == files@[i as int]);
        let ghost before = executable_views(files@.take(i as int));
        if is_executable_file(f) {
            assert(executable_views(files@.take(i + 1)) == before.push((f.name@, f.path@)));
            let key = chars_of(f.name.as_str());
            let p = lower_bound(&keys, &key);
            let ghost old_r = r@;
            let ghost old_keys = keys@;
            let entry = (f.name.clone(), f.path.clone());
            r.insert(p, entry);
            keys.insert(p, key);
            proof {
                assert(pairs_view(r@) =~= pairs_view(old_r).insert(p as int, pair_view(entry)));
                assert(pair_view(entry) == (f.name@, f.path@));
                vstd::seq_lib::to_multiset_insert(pairs_view(old_r), p as int, pair_view(entry));
                vstd::seq_lib::to_multiset_build(before, (f.name@, f.path@));
                assert forall|a: int, b: int| 0 <= a < b < keys@.len() implies #[trigger] lex_le(keys@[a]@, keys@[b]@) by {
                    if b < p {
                        assert(lex_le(old_keys[a]@, old_keys[b]@));
                    } else if b == p {
                        assert(!lex_le(key@, old_keys[a]@));
                        lemma_lex_total(key@, old_keys[a]@);
                    } else if a < p {
                        assert(lex_le(old_keys[a]@, old_keys[b - 1]@));
                    } else if a == p {
                        assert(lex_le(key@, old_keys[b - 1]@));
                    } else {
                        assert(lex_le(old_keys[a - 1]@, old_keys[b - 1]@));
                    }
                }
            }
        } else {
            assert(executable_views(files@.take(i + 1)) == before);
        }
        i += 1;
    }
    assert(files@.take(files@.len() as int) =~= files@);
    assert forall|a: int, b: int| 0 <= a < b < r@.len() implies lex_le(r@[a].0@, r@[b].0@) by {
        assert(keys@[a]@ == r@[a].0@);
        assert(keys@[b]@ == r@[b].0@);
        assert(lex_le(keys@[a]@, keys@[b]@));
    }
    r
}

/// The listings of several directories, one after the other.
pub open spec fn flat_views(ls: Seq<Vec<(String, String)>>) -> Seq<(Seq<char>, Seq<char>)>
    decreases ls.len(),
{
    if ls.len() == 0 {
        Seq::empty()
    } else {
        flat_views(ls.drop_last()) + pairs_view(ls.last()@)
    }
}

/// Entry `j` is the first with its name.
pub open spec fn first_with_name(f: Seq<(Seq<char>, Seq<char>)>, j: int) -> bool {
    0 <= j < f.len() && forall|i: int| 0 <= i < j ==> f[i].0 != f[j].0
}

/// Some command in `r` has the name `name`.
pub open spec fn has_command_named(r: Seq<CommandEntry>, name: Seq<char>) -> bool {
    exists|k: int| 0 <= k < r.len() && #[trigger] r[k].name@ == name
}

/// `c` is the first entry of its name in `f`.
pub open spec fn is_first_entry(f: Seq<(Seq<char>, Seq<char>)>, c: CommandEntry) -> bool {
    exists|j: int| #[trigger] first_with_name(f, j) && f[j] == (c.name@, c.path@)
}

/// `r` holds one command per name found in `f`, with the path of the first
/// entry of that name, ordered by name.
pub open spec fn is_merged(f: Seq<(Seq<char>, Seq<char>)>, r: Seq<CommandEntry>) -> bool {
    &&& forall|a: int, b: int| 0 <= a < b < r.len() ==> lex_lt(#[trigger] r[a].name@, #[trigger] r[b].name@)
    &&& forall|k: int| 0 <= k < r.len() ==> #[trigger] is_first_entry(f, r[k])
    &&& forall|j: int| 0 <= j < f.len() ==> #[trigger] has_command_named(r, f[j].0)
}

/// The listings one after the other.
fn flatten(listings: &Vec<Vec<(String, String)>>) -> (r: Vec<(String, String)>)
    ensures
        pairs_view(r@) == flat_views(listings@),
{
    let mut r: Vec<(String, String)> = Vec::new();
    let mut d: usize = 0;
    while d < listings.len()
        invariant
            d <= listings@.len(),
            pairs_view(r@) == flat_views(listings@.take(d as int)),
        decreases listings@.len() - d,
    {
        let ghost before = pairs_view(r@);
        let dir = &listings[d];
        let mut e: usize = 0;
        while e < dir.len()
            invariant
                e <= dir@.len(),
                pairs_view(r@) == before + pairs_view(dir@).take(e as int),
            decreases dir@.len() - e,
        {
            let entry = (dir[e].0.clone(), dir[e].1.clone());
            let ghost prev = r@;
            r.push(entry);
            assert(pairs_view(r@) =~= pairs_view(prev).push(pair_view(entry)));
            assert(pairs_view(dir@).take(e + 1) =~= pairs_view(dir@).take(e as int).push(
                pair_view(dir@[e as int]),
            ));
            e += 1;
        }
        assert(pairs_view(dir@).take(dir@.len() as int) =~= pairs_view(dir@));
        assert(listings@.take(d + 1).drop_last() =~= listings@.take(d as int));
        d += 1;
    }
    assert(listings@.take(listings@.len() as int) =~= listings@);
    r
}

proof fn lemma_merge_known(seen: Seq<(Seq<char>, Seq<char>)>, x: (Seq<char>, Seq<char>), r: Seq<CommandEntry>, p: int)
    requires
        is_merged(seen, r),
        0 <= p < r.len(),
        r[p].name@ == x.0,
    ensures
        is_merged(seen.push(x), r),
{
    let next = seen.push(x);
    assert forall|k: int| 0 <= k < r.len() implies #[trigger] is_first_entry(next, r[k]) by {
        assert(is_first_entry(seen, r[k]));
        let j = choose|j: int| #[trigger] first_with_name(seen, j) && seen[j] == (r[k].name@, r[k].path@);
        assert(first_with_name(next, j));
    }
    assert forall|j: int| 0 <= j < next.len() implies #[trigger] has_command_named(r, next[j].0) by {
        if j == seen.len() {
            assert(r[p].name@ == next[j].0);
        } else {
            assert(next[j] == seen[j]);
            assert(has_command_named(r, seen[j].0));
        }
    }
}

proof fn lemma_merge_new(
    seen: Seq<(Seq<char>, Seq<char>)>,
    x: (Seq<char>, Seq<char>),
    r: Seq<CommandEntry>,
    p: int,
    entry: CommandEntry,
)
    requires
        is_merged(seen, r),
        0 <= p <= r.len(),
        forall|k: int| 0 <= k < p ==> lex_lt(#[trigger] r[k].name@, x.0),
        forall|k: int| p <= k < r.len() ==> lex_lt(x.0, #[trigger] r[k].name@),
        entry.name@ == x.0,
        entry.path@ == x.1,
    ensures
        is_merged(seen.push(x), r.insert(p, entry)),
{
    let next = seen.push(x);
    let r2 = r.insert(p, entry);
    assert forall|k: int| 0 <= k < r.len() implies #[trigger] r[k].name@ != x.0 by {
        if k < p {
            assert(lex_lt(r[k].name@, x.0));
        } else {
            assert(lex_lt(x.0, r[k].name@));
        }
    }
    assert forall|a: int, b: int| 0 <= a < b < r2.len() implies lex_lt(#[trigger] r2[a].name@, #[trigger] r2[b].name@) by {
        if b < p {
            assert(lex_lt(r[a].name@, r[b].name@));
        } else if b == p {
            assert(lex_lt(r[a].name@, x.0));
        } else if a < p {
            assert(lex_lt(r[a].name@, r[b - 1].name@));
        } else if a == p {
            assert(lex_lt(x.0, r[b - 1].name@));
        } else {
            assert(lex_lt(r[a - 1].name@, r[b - 1].name@));
        }
    }
    assert forall|k: int| 0 <= k < r2.len() implies #[trigger] is_first_entry(next, r2[k]) by {
        if k == p {
            assert forall|j: int| 0 <= j < seen.len() implies #[trigger] next[j].0 != next[seen.len() as int].0 by {
                assert(next[j] == seen[j]);
                assert(has_command_named(r, seen[j].0));
                let kk = choose|kk: int| 0 <= kk < r.len() && #[trigger] r[kk].name@ == seen[j].0;
                assert(r[kk].name@ != x.0);
            }
            assert(first_with_name(next, seen.len() as int));
            assert(next[seen.len() as int] == (r2[k].name@, r2[k].path@));
        } else {
            let ko = if k < p { k } else { k - 1 };
            assert(r2[k] == r[ko]);
            assert(is_first_entry(seen, r[ko]));
            let j = choose|j: int| #[trigger] first_with_name(seen, j) && seen[j] == (r[ko].name@, r[ko].path@);
            assert(first_with_name(next, j));
        }
    }
    assert forall|j: int| 0 <= j < next.len() implies #[trigger] has_command_named(r2, next[j].0) by {
        if j == seen.len() {
            assert(r2[p].name@ == next[j].0);
        } else {
            assert(next[j] == seen[j]);
            assert(has_command_named(r, seen[j].0));
            let kk = choose|kk: int| 0 <= kk < r.len() && #[trigger] r[kk].name@ == seen[j].0;
            if kk < p {
                assert(r2[kk].name@ == next[j].0);
            } else {
                assert(r2[kk + 1].name@ == next[j].0);
            }
        }
    }
}

/// Merges the listings of the `PATH` directories, in `PATH` order, into the
/// catalog: one command per name, found where it is listed first, ordered by
/// name.
pub fn merge_listings(listings: Vec<Vec<(String, String)>>) -> (r: Vec<CommandEntry>)
    ensures
        is_merged(flat_views(listings@), r@),
{
    let flat = flatten(&listings);
    let ghost f = pairs_view(flat@);
    let mut r: Vec<CommandEntry> = Vec::new();
    let mut keys: Vec<Vec<char>> = Vec::new();
    let mut i: usize = 0;
    while i < flat.len()
        invariant
            i <= flat@.len(),
            f == pairs_view(flat@),
            keys@.len() == r@.len(),
            forall|k: int| 0 <= k < r@.len() ==> #[trigger] keys@[k]@ == r@[k].name@,
            is_merged(f.take(i as int), r@),
        decreases flat@.len() - i,
    {
        let ghost seen = f.take(i as int);
        let ghost x = f[i as int];
        assert(f.take(i + 1) =~= seen.push(x));
        let key = chars_of(flat[i].0.as_str());
        proof {
            assert forall|a: int, b: int| 0 <= a < b < keys@.len() implies #[trigger] lex_le(keys@[a]@, keys@[b]@) by {
                assert(lex_lt(r@[a].name@, r@[b].name@));
            }
        }
        let p = lower_bound(&keys, &key);
        if p < keys.len() && chars_eq(&keys[p], &key) {
            proof {
                lemma_merge_known(seen, x, r@, p as int);
            }
        } else {
            let entry = CommandEntry { name: flat[i].0.clone(), path: flat[i].1.clone() };
            proof {
                assert forall|k: int| 0 <= k < p implies lex_lt(#[trigger] r@[k].name@, x.0) by {
                    assert(keys@[k]@ == r@[k].name@);
                    assert(!lex_le(key@, keys@[k]@));
                    lemma_lex_total(key@, keys@[k]@);
                    if keys@[k]@ == key@ {
                        lemma_lex_refl(key@);
                    }
                }
                assert forall|k: int| p <= k < r@.len() implies lex_lt(x.0, #[trigger] r@[k].name@) by {
                    assert(keys@[k]@ == r@[k].name@);
                    assert(keys@[p as int]@ == r@[p as int].name@);
                    assert(lex_le(key@, keys@[k]@));
                    assert(keys@[p as int]@ != key@);
                    if k > p && keys@[k]@ == key@ {
                        assert(lex_lt(r@[p as int].name@, r@[k].name@));
                        lemma_lex_antisym(key@, keys@[p as int]@);
                    }
                }
                lemma_merge_new(seen, x, r@, p as int, entry);
            }
            r.insert(p, entry);
            keys.insert(p, key);
        }
        i += 1;
    }
    assert(f.take(flat@.len() as int) =~= f);
    r
}

} // verus!
