//! Restoring saved sessions: finding their files and describing them.
use vstd::prelude::*;

use crate::csv::session::{session_suffix, session_suffix_str, Session};
use crate::paths::{file_name, join, path_file_name, path_joined};
use crate::text::{decimal, ends_with, push_decimal};

verus! {

/// `s` with every trailing occurrence of the non-empty `suffix` removed
/// (what `str::trim_end_matches` does with a string pattern).
pub open spec fn trim_suffix_repeatedly(s: Seq<char>, suffix: Seq<char>) -> Seq<char>
    decreases s.len(),
{
    if suffix.len() > 0 && ends_with(s, suffix) {
        trim_suffix_repeatedly(s.subrange(0, s.len() - suffix.len()), suffix)
    } else {
        s
    }
}

/// The CSV file that a file named `name` in directory `root` keeps the session
/// of, if `name` is a session file name.
pub open spec fn session_original(root: Seq<char>, name: Seq<char>) -> Option<Seq<char>> {
    if ends_with(name, session_suffix()) {
        Some(path_joined(root, trim_suffix_repeatedly(name, session_suffix())))
    } else {
        None
    }
}

/// Whether `s` has `suffix` ending at position `end`.
fn has_suffix_at(s: &str, end: usize, suffix: &str) -> (r: bool)
    requires
        end <= s@.len(),
    ensures
        r == (suffix@.len() <= end && s@.subrange(end - suffix@.len(), end as int) == suffix@),
{
    let slen = suffix.unicode_len();
    if slen > end {
        return false;
    }
    let start = end - slen;
    let mut k: usize = 0;
    while k < slen
        invariant
            slen == suffix@.len(),
            start + slen == end,
            end <= s@.len(),
            k <= slen,
            forall|j: int| 0 <= j < k ==> s@[start + j] == suffix@[j],
        decreases slen - k,
    {
        if s.get_char(start + k) != suffix.get_char(k) {
            assert(s@.subrange(start as int, end as int)[k as int] != suffix@[k as int]);
            return false;
        }
        k = k + 1;
    }
    assert(s@.subrange(start as int, end as int) =~= suffix@);
    true
}

/// `name` without its trailing session suffixes.
fn trim_session_suffixes(name: &str) -> (r: String)
    ensures
        r@ == trim_suffix_repeatedly(name@, session_suffix()),
{
    let suffix = session_suffix_str();
    let slen = suffix.unicode_len();
    let mut end = name.unicode_len();
    assert(name@.subrange(0, end as int) =~= name@);
    while has_suffix_at(name, end, suffix)
        invariant
            end <= name@.len(),
            slen == session_suffix().len(),
            suffix@ == session_suffix(),
            trim_suffix_repeatedly(name@.subrange(0, end as int), session_suffix())
                == trim_suffix_repeatedly(name@, session_suffix()),
        decreases end,
    {
        let ghost cur = name@.subrange(0, end as int);
        assert(ends_with(cur, session_suffix())) by {
            assert(cur.subrange(cur.len() - slen, cur.len() as int) =~= name@.subrange(
                end - slen,
                end as int,
            ));
        }
        assert(cur.subrange(0, cur.len() - slen) =~= name@.subrange(0, end - slen));
        end = end - slen;
    }
    let ghost cur = name@.subrange(0, end as int);
    assert(!ends_with(cur, session_suffix())) by {
        if ends_with(cur, session_suffix()) {
            assert(cur.subrange(cur.len() - slen, cur.len() as int) =~= name@.subrange(
                end - slen,
                end as int,
            ));
        }
    }
    assert(name@.subrange(0, name@.len() as int) =~= name@);
    String::from_str(name.substring_char(0, end))
}

/// The CSV file whose session a file named `name` in directory `root` keeps,
/// if `name` ends with `.session.json`.
pub fn session_original_path(root: &str, name: &str) -> (r: Option<String>)
    ensures
        match r {
            Some(p) => session_original(root@, name@) == Some(p@),
            None => session_original(root@, name@) is None,
        },
{
    let suffix = session_suffix_str();
    let len = name.unicode_len();
    if has_suffix_at(name, len, suffix) {
        let original = trim_session_suffixes(name);
        Some(join(root, original.as_str()))
    } else {
        None
    }
}

/// A session file is found again for the CSV file it belongs to: the file named
/// `name` + `.session.json` in `root` keeps the session of `root`/`name`, unless
/// `name` itself ends with `.session.json`.
pub proof fn lemma_session_file_names_its_original(root: Seq<char>, name: Seq<char>)
    requires
        !ends_with(name, session_suffix()),
    ensures
        session_original(root, name + session_suffix()) == Some(path_joined(root, name)),
{
    let full = name + session_suffix();
    let suffix = session_suffix();
    assert(full.subrange(full.len() - suffix.len(), full.len() as int) =~= suffix);
    assert(full.subrange(0, full.len() - suffix.len()) =~= name);
    assert(suffix.len() == 13);
    assert(ends_with(full, suffix));
    assert(trim_suffix_repeatedly(name, suffix) == name);
    assert(trim_suffix_repeatedly(full, suffix) == trim_suffix_repeatedly(name, suffix));
}

/// The text naming `path`'s final component, empty if it has none.
pub open spec fn file_name_text(path: Seq<char>) -> Seq<char> {
    match path_file_name(path) {
        Some(n) => n,
        None => Seq::empty(),
    }
}

/// The entry of a session in the list of sessions to restore.
pub open spec fn session_choice_text(s: Session) -> Seq<char> {
    file_name_text(s.original_path@) + " — record "@ + decimal(s.current_index as nat + 1) + "/"@
        + decimal(s.total_rows as nat) + " — "@ + s.last_activity@
}

/// The question asked before restoring a session.
pub open spec fn restore_prompt_text(s: Session) -> Seq<char> {
    "Found saved session:\n\nOriginal file: "@ + s.original_path@ + "\nOutput file:   "@
        + s.output_path@ + "\nProgress:      record "@ + decimal(s.current_index as nat + 1)
        + " of "@ + decimal(s.total_rows as nat) + "\nSaved:         "@ + decimal(
        s.saved_count as nat,
    ) + " records\nDiscarded:     "@ + decimal(s.discarded_count as nat)
        + " records\nStarted:       "@ + s.started_at@ + "\nLast activity: "@ + s.last_activity@
        + "\n\nWould you like to restore this session?"@
}

/// The entry of `session` in the list of sessions to restore.
pub fn session_choice_label(session: &Session) -> (r: String)
    requires
        session.current_index < usize::MAX,
    ensures
        r@ == session_choice_text(*session),
{
    let mut s = match file_name(session.original_path.as_str()) {
        Some(n) => n,
        None => String::new(),
    };
    s.append(" — record ");
    push_decimal(&mut s, (session.current_index + 1) as u64);
    s.append("/");
    push_decimal(&mut s, session.total_rows as u64);
    s.append(" — ");
    s.append(session.last_activity.as_str());
    s
}

/// The question asked before restoring `session`.
pub fn restore_prompt(session: &Session) -> (r: String)
    requires
        session.current_index < usize::MAX,
    ensures
        r@ == restore_prompt_text(*session),
{
    let mut s = String::from_str("Found saved session:\n\nOriginal file: ");
    s.append(session.original_path.as_str());
    s.append("\nOutput file:   ");
    s.append(session.output_path.as_str());
    s.append("\nProgress:      record ");
    push_decimal(&mut s, (session.current_index + 1) as u64);
    s.append(" of ");
    push_decimal(&mut s, session.total_rows as u64);
    s.append("\nSaved:         ");
    push_decimal(&mut s, session.saved_count as u64);
    s.append(" records\nDiscarded:     ");
    push_decimal(&mut s, session.discarded_count as u64);
    s.append(" records\nStarted:       ");
    s.append(session.started_at.as_str());
    s.append("\nLast activity: ");
    s.append(session.last_activity.as_str());
    s.append("\n\nWould you like to restore this session?");
    s
}

} // verus!
