use vstd::prelude::*;
use vstd::utf8::{decode_utf8, valid_utf8};
use crate::helper::{name_key, strings_view};
use crate::text::{
    chars_of, has_prefix, lemma_split_on_nonempty, lines, lines_of, split_on, starts_with, string_of,
    trim, trimmed,
};

verus! {

/// `Exec=`, the key of the command that starts the application.
pub open spec fn exec_key() -> Seq<char> {
    seq!['E', 'x', 'e', 'c', '=']
}

/// `Icon=`, the key of the application's icon name.
pub open spec fn icon_key() -> Seq<char> {
    seq!['I', 'c', 'o', 'n', '=']
}

/// The value that the last line starting with `key` gives it (what follows
/// the key on that line), or the empty sequence when no line does.
pub open spec fn last_value(ls: Seq<Seq<char>>, key: Seq<char>) -> Seq<char>
    decreases ls.len(),
{
    if ls.len() == 0 {
        Seq::<char>::empty()
    } else if has_prefix(ls.last(), key) {
        ls.last().skip(key.len() as int)
    } else {
        last_value(ls.drop_last(), key)
    }
}

/// The characters before the first space of `v` (all of `v` when it holds
/// no space).
pub open spec fn first_word(v: Seq<char>) -> Seq<char>
    decreases v.len(),
{
    if v.len() == 0 || v[0] == ' ' {
        Seq::<char>::empty()
    } else {
        seq![v[0]] + first_word(v.drop_first())
    }
}

/// What a desktop entry says of its application; an empty string stands for
/// a key that no line gives.
pub struct DesktopEntry {
    /// The command line after `Exec=`.
    pub exec_command: String,
    /// The icon name after `Icon=`.
    pub icon: String,
    /// The display name after `Name=`.
    pub display_name: String,
}

fn key_value(lc: &Vec<char>, key: &Vec<char>) -> (r: Option<String>)
    requires
        key@.len() == 5,
    ensures
        has_prefix(lc@, key@) ==> r is Some && r->0@ == lc@.skip(5),
        !has_prefix(lc@, key@) ==> r is None,
{
    if starts_with(lc, key) {
        let v = string_of(lc, 5, lc.len());
        assert(lc@.subrange(5, lc@.len() as int) == lc@.skip(5));
        Some(v)
    } else {
        None
    }
}

/// Reads the `Exec=`, `Icon=` and `Name=` lines of a desktop entry; where a
/// key stands on several lines, the last one counts.
pub fn scan_desktop_entry(file_contents: &str) -> (entry: DesktopEntry)
    ensures
        entry.exec_command@ == last_value(lines_of(file_contents@), exec_key()),
        entry.icon@ == last_value(lines_of(file_contents@), icon_key()),
        entry.display_name@ == last_value(lines_of(file_contents@), name_key()),
{
    let ls = lines(file_contents);
    let ghost all = lines_of(file_contents@);
    let exec_k = vec!['E', 'x', 'e', 'c', '='];
    let icon_k = vec!['I', 'c', 'o', 'n', '='];
    let name_k = vec!['N', 'a', 'm', 'e', '='];
    assert(exec_k@ == exec_key());
    assert(icon_k@ == icon_key());
    assert(name_k@ == name_key());
    let mut entry = DesktopEntry {
        exec_command: String::new(),
        icon: String::new(),
        display_name: String::new(),
    };
    let mut i: usize = 0;
    while i < ls.len()
        invariant
            i <= ls@.len(),
            strings_view(ls@) == all,
            exec_k@ == exec_key(),
            icon_k@ == icon_key(),
            name_k@ == name_key(),
            entry.exec_command@ == last_value(all.take(i as int), exec_key()),
            entry.icon@ == last_value(all.take(i as int), icon_key()),
            entry.display_name@ == last_value(all.take(i as int), name_key()),
        decreases ls@.len() - i,
    {
        assert(all.take(i as int + 1).drop_last() == all.take(i as int));
        assert(all.take(i as int + 1).last() == all[i as int]);
        assert(strings_view(ls@)[i as int] == ls@[i as int]@);
        let lc = chars_of(ls[i].as_str());
        match key_value(&lc, &exec_k) {
            Some(v) => {
                entry.exec_command = v;
            },
            None => {},
        }
        match key_value(&lc, &icon_k) {
            Some(v) => {
                entry.icon = v;
            },
            None => {},
        }
        match key_value(&lc, &name_k) {
            Some(v) => {
                entry.display_name = v;
            },
            None => {},
        }
        i = i + 1;
    }
    assert(all.take(ls@.len() as int) == all);
    entry
}

/// The characters of `v` before its first space.
pub fn first_word_of(v: &str) -> (w: String)
    ensures
        w@ == first_word(v@),
{
    let vc = chars_of(v);
    let mut k: usize = 0;
    assert(vc@.skip(0) == vc@);
    assert(vc@.take(0) + vc@ == vc@);
    while k < vc.len() && vc[k] != ' '
        invariant
            k <= vc@.len(),
            first_word(vc@) == vc@.take(k as int) + first_word(vc@.skip(k as int)),
        decreases vc@.len() - k,
    {
        assert(vc@.skip(k as int).drop_first() == vc@.skip(k as int + 1));
        assert(vc@.take(k as int + 1) == vc@.take(k as int) + seq![vc@[k as int]]);
        k = k + 1;
    }
    assert(vc@.skip(0) == vc@);
    assert(first_word(vc@.skip(k as int)).len() == 0);
    assert(vc@.subrange(0, k as int) == vc@.take(k as int));
    string_of(&vc, 0, k)
}

/// Why a desktop entry cannot be acted on.
pub enum DesktopFileError {
    /// No `Exec=` line names an executable.
    MissingExecutable,
    /// No `Icon=` line names an icon.
    MissingIcon,
}

impl DesktopFileError {
    /// The message the program reports for the error.
    pub fn message(&self) -> (m: String)
        ensures
            m@ == match self {
                DesktopFileError::MissingExecutable => "Failed to find executable file!"@,
                DesktopFileError::MissingIcon => "Failed to find icon!"@,
            },
    {
        match self {
            DesktopFileError::MissingExecutable => "Failed to find executable file!".to_owned(),
            DesktopFileError::MissingIcon => "Failed to find icon!".to_owned(),
        }
    }
}

/// What removing an application takes, as its desktop entry gives it.
pub struct RemovalPlan {
    /// The executable to offer for removal.
    pub executable: String,
    /// The name to look for configuration directories by first.
    pub application_name: String,
    /// The name to look for configuration directories by second.
    pub program_name: String,
    /// The icon name to look for application files by; `None` when the
    /// entry gives none, which ends the removal with `MissingIcon` once the
    /// executable and the configuration have been dealt with.
    pub icon: Option<String>,
}

/// Works out from what a desktop entry says of its application what
/// removing it takes: the executable is the first word of the `Exec=`
/// command, `program_name` stands in for a missing display name, and a
/// missing icon is left for the caller to report once the executable and the
/// configuration have been dealt with.
pub fn plan_removal(entry: &DesktopEntry, program_name: &str) -> (r: Result<RemovalPlan, DesktopFileError>)
    ensures
        first_word(entry.exec_command@).len() == 0 <==> r is Err,
        r is Err ==> r->Err_0 is MissingExecutable,
        r matches Ok(plan) ==> {
            &&& plan.executable@ == first_word(entry.exec_command@)
            &&& plan.application_name@ == (if entry.display_name@.len() > 0 {
                entry.display_name@
            } else {
                program_name@
            })
            &&& plan.program_name@ == program_name@
            &&& (entry.icon@.len() == 0 <==> plan.icon is None)
            &&& plan.icon matches Some(i) ==> i@ == entry.icon@
        },
{
    let executable = first_word_of(entry.exec_command.as_str());
    if executable.as_str().is_empty() {
        return Err(DesktopFileError::MissingExecutable);
    }
    let application_name = if entry.display_name.as_str().is_empty() {
        program_name.to_owned()
    } else {
        entry.display_name.clone()
    };
    let icon = if entry.icon.as_str().is_empty() {
        None
    } else {
        Some(entry.icon.clone())
    };
    Ok(RemovalPlan { executable, application_name, program_name: program_name.to_owned(), icon })
}

/// The executable a desktop entry starts: the first word of its last
/// `Exec=` line.
pub open spec fn entry_executable(contents: Seq<char>) -> Seq<char> {
    first_word(last_value(lines_of(contents), exec_key()))
}

/// Works out from the contents of a desktop entry what removing its
/// application takes: the executable is the first word of the last `Exec=`
/// line, the application name is the last `Name=` value (or `program_name`
/// when there is none), and the icon is the last `Icon=` value. Without an
/// executable the entry cannot be acted on; a missing icon is left for the
/// caller to report after the executable and configuration steps.
pub fn read_desktop_file(file_contents: &str, program_name: &str) -> (r: Result<RemovalPlan, DesktopFileError>)
    ensures
        entry_executable(file_contents@).len() == 0 <==> r is Err,
        r is Err ==> r->Err_0 is MissingExecutable,
        r matches Ok(plan) ==> {
            let ls = lines_of(file_contents@);
            let name = last_value(ls, name_key());
            let icon = last_value(ls, icon_key());
            &&& plan.executable@ == entry_executable(file_contents@)
            &&& plan.application_name@ == (if name.len() > 0 { name } else { program_name@ })
            &&& plan.program_name@ == program_name@
            &&& (icon.len() == 0 <==> plan.icon is None)
            &&& plan.icon matches Some(i) ==> i@ == icon
        },
{
    let entry = scan_desktop_entry(file_contents);
    plan_removal(&entry, program_name)
}

/// What `String::from_utf8_lossy` makes of `bytes`.
pub uninterp spec fn utf8_lossy(bytes: Seq<u8>) -> Seq<char>;

/// `String::from_utf8_lossy` from std: decodes `bytes` as UTF-8, putting
/// U+FFFD in place of each invalid sequence. The contract names the result,
/// and states what std's documentation says: valid UTF-8 decodes unchanged.
#[verifier::external_body]
fn decode_utf8_lossy(bytes: &[u8]) -> (s: String)
    ensures
        s@ == utf8_lossy(bytes@),
        valid_utf8(bytes@) ==> s@ == decode_utf8(bytes@),
{
    String::from_utf8_lossy(bytes).into_owned()
}

/// Where the executable is, from what `which` printed: the output decoded
/// as UTF-8 (invalid sequences replaced) and trimmed.
pub fn executable_location(which_output: &[u8]) -> (path: String)
    ensures
        path@ == trimmed(utf8_lossy(which_output@)),
        valid_utf8(which_output@) ==> path@ == trimmed(decode_utf8(which_output@)),
{
    let text = decode_utf8_lossy(which_output);
    trim(text.as_str())
}

/// What to report of the configuration directories found by the three
/// names, and which one to offer for deletion.
pub struct ConfigReport {
    /// Whether to report the directories found by the application name.
    pub report_by_application: bool,
    /// Whether to report the directories found by the program name.
    pub report_by_program: bool,
    /// The directory to offer for deletion: the first one found by the
    /// executable name, if any.
    pub candidate: Option<String>,
}

/// Decides what to do with the configuration directories found by the
/// application name, the program name and the executable name: the first
/// two lists are only reported (when not empty), and the first directory
/// found by the executable name is the one to offer for deletion.
pub fn handle_config_files(
    found_by_application: &Vec<String>,
    found_by_program: &Vec<String>,
    found_by_executable: &Vec<String>,
) -> (report: ConfigReport)
    ensures
        report.report_by_application == (found_by_application@.len() != 0),
        report.report_by_program == (found_by_program@.len() != 0),
        (found_by_executable@.len() == 0 <==> report.candidate is None),
        report.candidate matches Some(c) ==> c@ == found_by_executable@[0]@,
{
    let candidate = if found_by_executable.len() == 0 {
        None
    } else {
        Some(found_by_executable[0].clone())
    };
    ConfigReport {
        report_by_application: found_by_application.len() != 0,
        report_by_program: found_by_program.len() != 0,
        candidate,
    }
}

/// The views of the results of successive searches.
pub open spec fn searches_view(found: Seq<Vec<String>>) -> Seq<Seq<Seq<char>>> {
    found.map_values(|l: Vec<String>| strings_view(l@))
}

/// The first entry of the first search that found anything.
pub open spec fn first_found(found: Seq<Seq<Seq<char>>>) -> Option<Seq<char>>
    decreases found.len(),
{
    if found.len() == 0 {
        None
    } else if found[0].len() > 0 {
        Some(found[0][0])
    } else {
        first_found(found.drop_first())
    }
}

/// Picks the configuration directory to offer for deletion from the results
/// of the searches made so far, in the order they were made (by the
/// application name, the program name, then the executable name): the first
/// directory of the first search that found any.
pub fn select_config_directory(found: &Vec<Vec<String>>) -> (r: Option<String>)
    ensures
        match first_found(searches_view(found@)) {
            Some(d) => r is Some && r->0@ == d,
            None => r is None,
        },
{
    let ghost all = searches_view(found@);
    let mut i: usize = 0;
    assert(all.skip(0) == all);
    while i < found.len()
        invariant
            i <= found@.len(),
            all == searches_view(found@),
            first_found(all) == first_found(all.skip(i as int)),
        decreases found@.len() - i,
    {
        assert(all.skip(i as int)[0] == all[i as int]);
        assert(all.skip(i as int).drop_first() == all.skip(i as int + 1));
        assert(all[i as int] == strings_view(found@[i as int]@));
        if found[i].len() > 0 {
            assert(strings_view(found@[i as int]@)[0] == found@[i as int]@[0]@);
            return Some(found[i][0].clone());
        }
        i = i + 1;
    }
    None
}


proof fn lemma_first_piece_prefix(s: Seq<char>, k: int)
    requires
        0 <= k <= s.len(),
        forall|j: int| 0 <= j < k ==> s[j] != ' ',
    ensures
        split_on(s.take(k), ' ') == seq![s.take(k)],
    decreases k,
{
    if k > 0 {
        lemma_first_piece_prefix(s, k - 1);
        assert(s.take(k).drop_last() == s.take(k - 1));
        assert(s.take(k).last() == s[k - 1]);
        assert(s.take(k - 1).push(s[k - 1]) == s.take(k));
        assert(split_on(s.take(k), ' ') == seq![s.take(k - 1)].update(0, s.take(k - 1).push(s[k - 1])));
        assert(seq![s.take(k - 1)].update(0, s.take(k)) =~= seq![s.take(k)]);
    } else {
        assert(s.take(0) =~= Seq::<char>::empty());
    }
}

proof fn lemma_split_keeps_first(s: Seq<char>, k: int)
    requires
        0 <= k <= s.len(),
        split_on(s.take(k), ' ').len() >= 2,
    ensures
        split_on(s, ' ')[0] == split_on(s.take(k), ' ')[0],
    decreases s.len() - k,
{
    if k < s.len() {
        let t = s.take(k + 1);
        assert(t.drop_last() == s.take(k));
        assert(t.last() == s[k]);
        assert(split_on(t, ' ')[0] == split_on(s.take(k), ' ')[0]);
        lemma_split_keeps_first(s, k + 1);
    } else {
        assert(s.take(k) == s);
    }
}

/// How many characters come before the first space of `v`.
pub open spec fn word_length(v: Seq<char>) -> nat
    decreases v.len(),
{
    if v.len() == 0 || v[0] == ' ' {
        0
    } else {
        1 + word_length(v.drop_first())
    }
}

proof fn lemma_first_word_prefix(v: Seq<char>)
    ensures
        word_length(v) <= v.len(),
        first_word(v) == v.take(word_length(v) as int),
        forall|j: int| 0 <= j < word_length(v) ==> v[j] != ' ',
        word_length(v) == v.len() || v[word_length(v) as int] == ' ',
    decreases v.len(),
{
    if v.len() == 0 || v[0] == ' ' {
        assert(first_word(v) == v.take(0));
    } else {
        let w = v.drop_first();
        lemma_first_word_prefix(w);
        assert(first_word(v) =~= v.take(word_length(v) as int));
        assert forall|j: int| 0 <= j < word_length(v) implies v[j] != ' ' by {
            if j > 0 {
                assert(v[j] == w[j - 1]);
            }
        }
        if word_length(v) < v.len() {
            assert(v[word_length(v) as int] == w[word_length(w) as int]);
        }
    }
}

/// The executable is the first piece of the `Exec=` value split at spaces,
/// as `split(" ")` followed by taking the first piece gives it, and holds no
/// space.
pub proof fn law_first_word_is_first_piece(v: Seq<char>)
    ensures
        first_word(v) == split_on(v, ' ')[0],
        forall|j: int| 0 <= j < first_word(v).len() ==> first_word(v)[j] != ' ',
{
    lemma_first_word_prefix(v);
    let k = word_length(v) as int;
    lemma_first_piece_prefix(v, k);
    if k == v.len() {
        assert(v.take(k) == v);
    } else {
        assert(v.take(k + 1).drop_last() == v.take(k));
        assert(v.take(k + 1).last() == ' ');
        assert(split_on(v.take(k + 1), ' ') == seq![v.take(k)].push(Seq::<char>::empty()));
        lemma_split_keeps_first(v, k + 1);
    }
}

/// Searching lazily loses nothing: once some search has found a directory,
/// further searches do not change which one is offered.
pub proof fn law_config_search_stops_at_first_find(
    found: Seq<Seq<Seq<char>>>,
    more: Seq<Seq<Seq<char>>>,
)
    requires
        exists|i: int| 0 <= i < found.len() && found[i].len() > 0,
    ensures
        first_found(found + more) == first_found(found),
        first_found(found) is Some,
    decreases found.len(),
{
    assert((found + more)[0] == found[0]);
    if found[0].len() == 0 {
        let i = choose|i: int| 0 <= i < found.len() && found[i].len() > 0;
        assert(found.drop_first()[i - 1] == found[i]);
        assert((found + more).drop_first() == found.drop_first() + more);
        law_config_search_stops_at_first_find(found.drop_first(), more);
    }
}


/// A key is read only from a line that begins with the whole key, `=`
/// included: when no line begins with it the value is empty, and otherwise
/// the value is what follows the key on the last line that begins with it.
pub proof fn law_value_comes_from_last_keyed_line(ls: Seq<Seq<char>>, key: Seq<char>)
    ensures
        (forall|i: int| 0 <= i < ls.len() ==> !has_prefix(#[trigger] ls[i], key))
            ==> last_value(ls, key).len() == 0,
        forall|i: int|
            0 <= i < ls.len() && has_prefix(#[trigger] ls[i], key) && (forall|j: int|
                i < j < ls.len() ==> !has_prefix(#[trigger] ls[j], key))
                ==> last_value(ls, key) == ls[i].skip(key.len() as int),
    decreases ls.len(),
{
    if ls.len() > 0 {
        let n = ls.len() - 1;
        law_value_comes_from_last_keyed_line(ls.drop_last(), key);
        assert(ls.last() == ls[n]);
        if !has_prefix(ls[n], key) {
            assert forall|i: int| 0 <= i < ls.drop_last().len() implies ls.drop_last()[i] == ls[i] by {}
            assert forall|i: int|
                0 <= i < ls.len() && has_prefix(#[trigger] ls[i], key) && (forall|j: int|
                    i < j < ls.len() ==> !has_prefix(#[trigger] ls[j], key))
                implies last_value(ls, key) == ls[i].skip(key.len() as int) by {
                assert(i < n);
                assert(ls.drop_last()[i] == ls[i]);
                assert forall|j: int| i < j < ls.drop_last().len() implies !has_prefix(#[trigger] ls.drop_last()[j], key) by {
                    assert(ls.drop_last()[j] == ls[j]);
                }
            }
            if forall|i: int| 0 <= i < ls.len() ==> !has_prefix(#[trigger] ls[i], key) {
                assert forall|i: int| 0 <= i < ls.drop_last().len() implies !has_prefix(#[trigger] ls.drop_last()[i], key) by {
                    assert(ls.drop_last()[i] == ls[i]);
                }
            }
        }
    }
}


/// The keys read from a desktop entry are `Exec=`, `Icon=` and `Name=`,
/// each with its `=`.
pub proof fn law_entry_keys()
    ensures
        exec_key() == "Exec="@,
        icon_key() == "Icon="@,
        name_key() == "Name="@,
{
    reveal_strlit("Exec=");
    reveal_strlit("Icon=");
    reveal_strlit("Name=");
}

} // verus!
