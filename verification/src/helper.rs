use vstd::prelude::*;
use crate::text::{
    all_white_space, chars_of, concatenate, ends_with, eq_ignore_ascii_case,
    equal_ignoring_ascii_case, fold_ascii, has_prefix, has_suffix, law_trim_ignores_padding, lines, lines_of,
    same_chars, split_chars, split_on, starts_with, string_of, trim, trimmed,
};
use crate::number::{parse_usize, usize_parse};

verus! {

/// The answer that a line typed at a yes/no prompt gives: `y` or `yes` is
/// yes, `n`, `no` or `nein` is no, anything else is no answer.
pub open spec fn binary_answer(line: Seq<char>) -> Option<bool> {
    let t = trimmed(line);
    if t == seq!['y'] || t == seq!['y', 'e', 's'] {
        Some(true)
    } else if t == seq!['n'] || t == seq!['n', 'o'] || t == seq!['n', 'e', 'i', 'n'] {
        Some(false)
    } else {
        None
    }
}

/// Reads one line typed at a yes/no prompt: `Some(true)` for yes,
/// `Some(false)` for no, `None` when the prompt has to be repeated.
pub fn handle_binary_input(input: &str) -> (r: Option<bool>)
    ensures
        r == binary_answer(input@),
{
    let t = trim(input);
    let tc = chars_of(t.as_str());
    let yes_short = vec!['y'];
    let yes_long = vec!['y', 'e', 's'];
    let no_short = vec!['n'];
    let no_long = vec!['n', 'o'];
    let nein = vec!['n', 'e', 'i', 'n'];
    assert(yes_short@ == seq!['y']);
    assert(yes_long@ == seq!['y', 'e', 's']);
    assert(no_short@ == seq!['n']);
    assert(no_long@ == seq!['n', 'o']);
    assert(nein@ == seq!['n', 'e', 'i', 'n']);
    if same_chars(&tc, &yes_short) || same_chars(&tc, &yes_long) {
        Some(true)
    } else if same_chars(&tc, &no_short) || same_chars(&tc, &no_long) || same_chars(&tc, &nein) {
        Some(false)
    } else {
        None
    }
}

/// The choice that a line typed at a numbered menu of `length` entries
/// gives: a decimal number below `length`.
pub open spec fn selection_answer(line: Seq<char>, length: usize) -> Option<usize> {
    match usize_parse(trimmed(line)) {
        Some(v) => if v < length { Some(v as usize) } else { None },
        None => None,
    }
}

/// Reads one line typed at a numbered menu: `Some(choice)` when it is a
/// number below `length`, `None` when the prompt has to be repeated.
pub fn handle_selection_input(input: &str, length: usize) -> (r: Option<usize>)
    ensures
        r == selection_answer(input@, length),
{
    let t = trim(input);
    let tc = chars_of(t.as_str());
    match parse_usize(&tc) {
        Some(v) => if v < length { Some(v) } else { None },
        None => None,
    }
}


/// The views of a list of string slices.
pub open spec fn strs_view(v: Seq<&str>) -> Seq<Seq<char>> {
    v.map_values(|s: &str| s@)
}

/// The views of a list of strings.
pub open spec fn strings_view(v: Seq<String>) -> Seq<Seq<char>> {
    v.map_values(|s: String| s@)
}

/// The entries of `dirs` whose flag in `present` is set, in order.
pub open spec fn kept_existing(dirs: Seq<Seq<char>>, present: Seq<bool>) -> Seq<Seq<char>>
    decreases dirs.len(),
{
    if dirs.len() == 0 {
        seq![]
    } else {
        let rest = kept_existing(dirs.drop_last(), present.take(dirs.len() - 1));
        if present[dirs.len() - 1] {
            rest.push(dirs.last())
        } else {
            rest
        }
    }
}

/// The entries of `dirs` that are not in `exclude`, in order.
pub open spec fn not_excluded(dirs: Seq<Seq<char>>, exclude: Seq<Seq<char>>) -> Seq<Seq<char>>
    decreases dirs.len(),
{
    if dirs.len() == 0 {
        seq![]
    } else {
        let rest = not_excluded(dirs.drop_last(), exclude);
        if exclude.contains(dirs.last()) {
            rest
        } else {
            rest.push(dirs.last())
        }
    }
}

/// The directories to search for executables: with base directories given
/// (the first one not empty), those of them that exist; otherwise the
/// entries of `PATH`, last first, without the excluded ones (unless the
/// first excluded entry is empty).
pub open spec fn search_directories(
    exclude: Seq<Seq<char>>,
    base: Seq<Seq<char>>,
    path: Seq<char>,
    present: Seq<bool>,
) -> Seq<Seq<char>> {
    if base[0].len() != 0 {
        kept_existing(base, present)
    } else {
        let dirs = split_on(path, ':').reverse();
        if exclude[0].len() != 0 {
            not_excluded(dirs, exclude)
        } else {
            dirs
        }
    }
}

fn listed(list: &Vec<&str>, item: &String) -> (r: bool)
    ensures
        r == strs_view(list@).contains(item@),
{
    let ic = chars_of(item.as_str());
    let mut i: usize = 0;
    while i < list.len()
        invariant
            i <= list@.len(),
            ic@ == item@,
            forall|j: int| 0 <= j < i ==> list@[j]@ != item@,
        decreases list@.len() - i,
    {
        let lc = chars_of(list[i]);
        if same_chars(&lc, &ic) {
            assert(strs_view(list@)[i as int] == item@);
            return true;
        }
        i = i + 1;
    }
    assert forall|j: int| 0 <= j < strs_view(list@).len() implies strs_view(list@)[j] != item@ by {
        assert(strs_view(list@)[j] == list@[j]@);
    }
    false
}

/// Collects the directories to search for executables. `path_variable` is
/// the value of `PATH`, and `base_exists[i]` tells whether
/// `base_directories[i]` exists (it is read only when base directories are
/// given).
pub fn get_search_directories(
    exclude_directories: Vec<&str>,
    base_directories: Vec<&str>,
    path_variable: &str,
    base_exists: Vec<bool>,
) -> (dirs: Vec<String>)
    requires
        base_directories@.len() > 0,
        base_directories@[0]@.len() != 0 ==> base_exists@.len() == base_directories@.len(),
        base_directories@[0]@.len() == 0 ==> exclude_directories@.len() > 0,
    ensures
        strings_view(dirs@) == search_directories(
            strs_view(exclude_directories@),
            strs_view(base_directories@),
            path_variable@,
            base_exists@,
        ),
{
    let mut dirs: Vec<String> = Vec::new();
    let first_base = chars_of(base_directories[0]);
    if first_base.len() != 0 {
        let n = base_directories.len();
        let ghost base = strs_view(base_directories@);
        let mut i: usize = 0;
        while i < n
            invariant
                n == base_directories@.len() == base_exists@.len(),
                base == strs_view(base_directories@),
                i <= n,
                strings_view(dirs@) == kept_existing(base.take(i as int), base_exists@.take(i as int)),
            decreases n - i,
        {
            assert(base.take(i as int + 1).drop_last() == base.take(i as int));
            assert(base_exists@.take(i as int + 1).take(i as int) == base_exists@.take(i as int));
            assert(base.take(i as int + 1).last() == base_directories@[i as int]@);
            if base_exists[i] {
                let d = base_directories[i].to_owned();
                let ghost before = dirs@;
                dirs.push(d);
                assert(strings_view(dirs@) =~= strings_view(before).push(d@));
            }
            i = i + 1;
        }
        assert(base.take(n as int) == base);
        assert(base_exists@.take(n as int) == base_exists@);
        return dirs;
    }
    let path_chars = chars_of(path_variable);
    let pieces = split_chars(&path_chars, ':');
    let ghost forward = split_on(path_variable@, ':');
    let ghost backward = forward.reverse();
    let n = pieces.len();
    let mut reversed: Vec<String> = Vec::new();
    let mut i: usize = 0;
    while i < n
        invariant
            n == pieces@.len(),
            strings_view(pieces@) == forward,
            backward == forward.reverse(),
            i <= n,
            strings_view(reversed@) == backward.take(i as int),
        decreases n - i,
    {
        assert(strings_view(pieces@)[n - 1 - i] == pieces@[n - 1 - i]@);
        let p = pieces[n - 1 - i].clone();
        let ghost before = reversed@;
        reversed.push(p);
        assert(strings_view(reversed@) =~= strings_view(before).push(p@));
        assert(backward.take(i as int + 1) =~= backward.take(i as int).push(backward[i as int]));
        i = i + 1;
    }
    assert(backward.take(n as int) == backward);
    let first_exclude = chars_of(exclude_directories[0]);
    if first_exclude.len() == 0 {
        return reversed;
    }
    let ghost exclude = strs_view(exclude_directories@);
    let mut k: usize = 0;
    while k < n
        invariant
            n == reversed@.len(),
            strings_view(reversed@) == backward,
            exclude == strs_view(exclude_directories@),
            k <= n,
            strings_view(dirs@) == not_excluded(backward.take(k as int), exclude),
        decreases n - k,
    {
        assert(backward.take(k as int + 1).drop_last() == backward.take(k as int));
        assert(strings_view(reversed@)[k as int] == reversed@[k as int]@);
        if !listed(&exclude_directories, &reversed[k]) {
            let d = reversed[k].clone();
            let ghost before = dirs@;
            dirs.push(d);
            assert(strings_view(dirs@) =~= strings_view(before).push(d@));
        }
        k = k + 1;
    }
    assert(backward.take(n as int) == backward);
    dirs
}


/// `/usr/share/applications/`, where installed applications keep their
/// desktop entries.
pub open spec fn system_applications_dir() -> Seq<char> {
    "/usr/share/applications/"@
}

/// `.local/share/applications/` below `home`, where a user's own
/// applications keep their desktop entries.
pub open spec fn local_applications_dir(home: Seq<char>) -> Seq<char> {
    home + "/.local/share/applications/"@
}

/// The directories that hold desktop entries, in the order they are read:
/// the system one, then the one in the home directory `home`.
pub fn application_directories(home: &str) -> (dirs: Vec<String>)
    ensures
        strings_view(dirs@) == seq![system_applications_dir(), local_applications_dir(home@)],
{
    let system = "/usr/share/applications/".to_owned();
    let local = concatenate(home, "/.local/share/applications/");
    let dirs = vec![system, local];
    assert(strings_view(dirs@) =~= seq![system_applications_dir(), local_applications_dir(home@)]);
    dirs
}

/// `.desktop`.
pub open spec fn desktop_suffix() -> Seq<char> {
    seq!['.', 'd', 'e', 's', 'k', 't', 'o', 'p']
}

/// Whether a file in an applications directory is a desktop entry: its name
/// ends with `.desktop`.
pub fn is_desktop_file_name(file_name: &str) -> (r: bool)
    ensures
        r == has_suffix(file_name@, desktop_suffix()),
{
    let fc = chars_of(file_name);
    let suffix = vec!['.', 'd', 'e', 's', 'k', 't', 'o', 'p'];
    assert(suffix@ == desktop_suffix());
    ends_with(&fc, &suffix)
}

/// `Name=`, the key of an application's display name in a desktop entry.
pub open spec fn name_key() -> Seq<char> {
    seq!['N', 'a', 'm', 'e', '=']
}

/// A desktop entry line that gives `display_name` as the application's
/// name, up to ASCII case.
pub open spec fn names_application(line: Seq<char>, display_name: Seq<char>) -> bool {
    has_prefix(line, name_key()) && equal_ignoring_ascii_case(line.skip(5), display_name)
}

/// The first line of a desktop entry that names the application
/// `display_name` (up to ASCII case): the name as that line writes it.
pub open spec fn display_name_in(ls: Seq<Seq<char>>, display_name: Seq<char>) -> Option<Seq<char>>
    decreases ls.len(),
{
    if ls.len() == 0 {
        None
    } else if names_application(ls[0], display_name) {
        Some(ls[0].skip(5))
    } else {
        display_name_in(ls.drop_first(), display_name)
    }
}

/// Looks through the lines of a desktop entry for one that names the
/// application `display_name`, ignoring ASCII case, and gives the name as the
/// entry writes it. Only the first such line counts.
pub fn find_display_name(file_contents: &str, display_name: &str) -> (r: Option<String>)
    ensures
        match display_name_in(lines_of(file_contents@), display_name@) {
            Some(name) => r is Some && r->0@ == name,
            None => r is None,
        },
{
    let ls = lines(file_contents);
    let ghost all = lines_of(file_contents@);
    let dn = chars_of(display_name);
    let key = vec!['N', 'a', 'm', 'e', '='];
    assert(key@ == name_key());
    assert(all.skip(0) == all);
    let mut i: usize = 0;
    while i < ls.len()
        invariant
            i <= ls@.len(),
            strings_view(ls@) == all,
            all == lines_of(file_contents@),
            dn@ == display_name@,
            key@ == name_key(),
            display_name_in(all, display_name@) == display_name_in(all.skip(i as int), display_name@),
        decreases ls@.len() - i,
    {
        assert(all.skip(i as int)[0] == all[i as int]);
        assert(all.skip(i as int).drop_first() == all.skip(i as int + 1));
        assert(strings_view(ls@)[i as int] == ls@[i as int]@);
        let lc = chars_of(ls[i].as_str());
        if starts_with(&lc, &key) {
            let value = string_of(&lc, 5, lc.len());
            let vc = chars_of(value.as_str());
            if eq_ignore_ascii_case(&vc, &dn) {
                assert(lc@.subrange(5, lc@.len() as int) == lc@.skip(5));
                return Some(value);
            }
        }
        i = i + 1;
    }
    None
}


/// A yes/no answer does not depend on white space around it (such as the
/// line feed that ends a typed line).
pub proof fn law_binary_answer_ignores_padding(w1: Seq<char>, s: Seq<char>, w2: Seq<char>)
    requires
        all_white_space(w1),
        all_white_space(w2),
    ensures
        binary_answer(w1 + s + w2) == binary_answer(s),
{
    law_trim_ignores_padding(w1, s, w2);
}

/// A menu choice does not depend on white space around it, and is always
/// below the number of entries.
pub proof fn law_selection_answer(w1: Seq<char>, s: Seq<char>, w2: Seq<char>, length: usize)
    requires
        all_white_space(w1),
        all_white_space(w2),
    ensures
        selection_answer(w1 + s + w2, length) == selection_answer(s, length),
        selection_answer(s, length) matches Some(v) ==> v < length,
{
    law_trim_ignores_padding(w1, s, w2);
}

proof fn lemma_not_excluded(dirs: Seq<Seq<char>>, exclude: Seq<Seq<char>>, x: Seq<char>)
    ensures
        not_excluded(dirs, exclude).contains(x) <==> (dirs.contains(x) && !exclude.contains(x)),
    decreases dirs.len(),
{
    if dirs.len() > 0 {
        let rest = not_excluded(dirs.drop_last(), exclude);
        lemma_not_excluded(dirs.drop_last(), exclude, x);
        if dirs.contains(x) && !exclude.contains(x) {
            let i = choose|i: int| 0 <= i < dirs.len() && dirs[i] == x;
            if i < dirs.len() - 1 {
                assert(dirs.drop_last()[i] == x);
            }
        }
        if rest.contains(x) {
            let i = choose|i: int| 0 <= i < rest.len() && rest[i] == x;
            let j = choose|j: int| 0 <= j < dirs.drop_last().len() && dirs.drop_last()[j] == x;
            assert(dirs[j] == x);
            assert(rest.push(dirs.last())[i] == x);
        }
        if !exclude.contains(dirs.last()) {
            assert(rest.push(dirs.last())[rest.len() as int] == dirs.last());
            if dirs.drop_last().contains(x) {
                let j = choose|j: int| 0 <= j < dirs.drop_last().len() && dirs.drop_last()[j] == x;
                assert(dirs[j] == x);
            }
        }
    }
}

proof fn lemma_kept_existing(dirs: Seq<Seq<char>>, present: Seq<bool>, x: Seq<char>)
    requires
        present.len() == dirs.len(),
    ensures
        kept_existing(dirs, present).contains(x) <==> (exists|i: int|
            0 <= i < dirs.len() && present[i] && dirs[i] == x),
    decreases dirs.len(),
{
    if dirs.len() > 0 {
        let n = dirs.len() - 1;
        let rest = kept_existing(dirs.drop_last(), present.take(n));
        lemma_kept_existing(dirs.drop_last(), present.take(n), x);
        if exists|i: int| 0 <= i < dirs.len() && present[i] && dirs[i] == x {
            let i = choose|i: int| 0 <= i < dirs.len() && present[i] && dirs[i] == x;
            if i < n {
                assert(dirs.drop_last()[i] == x && present.take(n)[i]);
                if present[n] {
                    let k = choose|k: int| 0 <= k < rest.len() && rest[k] == x;
                    assert(rest.push(dirs.last())[k] == x);
                }
            } else {
                assert(rest.push(dirs.last())[rest.len() as int] == x);
            }
        }
        if kept_existing(dirs, present).contains(x) {
            if present[n] && dirs.last() == x {
            } else {
                let k = choose|k: int| 0 <= k < kept_existing(dirs, present).len() && kept_existing(dirs, present)[k] == x;
                if present[n] {
                    assert(rest.push(dirs.last())[k] == x);
                    if k < rest.len() {
                        assert(rest[k] == x);
                    }
                }
                let i = choose|i: int| 0 <= i < n && present.take(n)[i] && dirs.drop_last()[i] == x;
                assert(present[i] && dirs[i] == x);
            }
        }
    }
}

/// With base directories given, the search directories are exactly those
/// of them that exist.
pub proof fn law_search_directories_from_base(
    exclude: Seq<Seq<char>>,
    base: Seq<Seq<char>>,
    path: Seq<char>,
    present: Seq<bool>,
    x: Seq<char>,
)
    requires
        base.len() > 0,
        base[0].len() != 0,
        present.len() == base.len(),
    ensures
        search_directories(exclude, base, path, present).contains(x) <==> (exists|i: int|
            0 <= i < base.len() && present[i] && base[i] == x),
{
    lemma_kept_existing(base, present, x);
}

/// Without base directories, the search directories are exactly the
/// entries of `PATH` that are not excluded (when the first excluded entry is
/// not empty), and no excluded directory is among them.
pub proof fn law_search_directories_from_path(
    exclude: Seq<Seq<char>>,
    base: Seq<Seq<char>>,
    path: Seq<char>,
    present: Seq<bool>,
    x: Seq<char>,
)
    requires
        base.len() > 0,
        base[0].len() == 0,
        exclude.len() > 0,
        exclude[0].len() != 0,
    ensures
        search_directories(exclude, base, path, present).contains(x) <==> (split_on(path, ':').contains(x)
            && !exclude.contains(x)),
{
    let dirs = split_on(path, ':');
    lemma_not_excluded(dirs.reverse(), exclude, x);
    if dirs.contains(x) {
        let i = choose|i: int| 0 <= i < dirs.len() && dirs[i] == x;
        assert(dirs.reverse()[dirs.len() - 1 - i] == x);
    }
    if dirs.reverse().contains(x) {
        let i = choose|i: int| 0 <= i < dirs.reverse().len() && dirs.reverse()[i] == x;
        assert(dirs[dirs.len() - 1 - i] == x);
    }
}


/// `a` is a subsequence of `b`: `b` with some entries left out gives `a`.
pub open spec fn subsequence(a: Seq<Seq<char>>, b: Seq<Seq<char>>) -> bool
    decreases b.len(),
{
    if a.len() == 0 {
        true
    } else if b.len() == 0 {
        false
    } else if a.last() == b.last() {
        subsequence(a.drop_last(), b.drop_last())
    } else {
        subsequence(a, b.drop_last())
    }
}

proof fn lemma_subsequence_drop_last(a: Seq<Seq<char>>, b: Seq<Seq<char>>)
    requires
        a.len() > 0,
        subsequence(a, b),
    ensures
        subsequence(a.drop_last(), b),
    decreases b.len(),
{
    let a1 = a.drop_last();
    if a1.len() > 0 && b.len() > 0 {
        if a.last() == b.last() {
            if a1.last() == b.last() {
                lemma_subsequence_drop_last(a1, b.drop_last());
            }
        } else {
            lemma_subsequence_drop_last(a, b.drop_last());
            if a1.last() == b.last() {
                lemma_subsequence_drop_last(a1, b.drop_last());
            }
        }
    }
}

proof fn lemma_subsequence_extend(a: Seq<Seq<char>>, b: Seq<Seq<char>>, x: Seq<char>)
    requires
        subsequence(a, b),
    ensures
        subsequence(a, b.push(x)),
{
    assert(b.push(x).drop_last() == b);
    if a.len() > 0 && a.last() == x {
        lemma_subsequence_drop_last(a, b);
    }
}

proof fn lemma_not_excluded_monotone(dirs: Seq<Seq<char>>, e1: Seq<Seq<char>>, e2: Seq<Seq<char>>)
    requires
        forall|x: Seq<char>| e1.contains(x) ==> e2.contains(x),
    ensures
        subsequence(not_excluded(dirs, e2), not_excluded(dirs, e1)),
    decreases dirs.len(),
{
    if dirs.len() > 0 {
        let d = dirs.last();
        let r1 = not_excluded(dirs.drop_last(), e1);
        let r2 = not_excluded(dirs.drop_last(), e2);
        lemma_not_excluded_monotone(dirs.drop_last(), e1, e2);
        if !e1.contains(d) {
            lemma_subsequence_extend(r2, r1, d);
            if !e2.contains(d) {
                assert(r2.push(d).drop_last() == r2);
                assert(r1.push(d).drop_last() == r1);
            }
        }
    }
}

/// Excluding more directories only leaves entries out: with every excluded
/// entry of `e1` also in `e2`, the directories found with `e2` are a
/// subsequence of those found with `e1`.
pub proof fn law_more_exclusions_fewer_directories(
    e1: Seq<Seq<char>>,
    e2: Seq<Seq<char>>,
    base: Seq<Seq<char>>,
    path: Seq<char>,
    present: Seq<bool>,
)
    requires
        base.len() > 0,
        base[0].len() == 0,
        e1.len() > 0,
        e1[0].len() != 0,
        e2.len() > 0,
        e2[0].len() != 0,
        forall|x: Seq<char>| e1.contains(x) ==> e2.contains(x),
    ensures
        subsequence(
            search_directories(e2, base, path, present),
            search_directories(e1, base, path, present),
        ),
{
    lemma_not_excluded_monotone(split_on(path, ':').reverse(), e1, e2);
}

/// A display name is found only on a line that is `Name=` followed by a
/// name equal to the one searched for up to ASCII case (so of the same
/// length), and one is found whenever such a line exists.
pub proof fn law_display_name_match_is_exact(ls: Seq<Seq<char>>, display_name: Seq<char>)
    ensures
        display_name_in(ls, display_name) matches Some(n) ==> {
            &&& n.len() == display_name.len()
            &&& forall|k: int| 0 <= k < n.len() ==> fold_ascii(n[k]) == fold_ascii(display_name[k])
            &&& exists|i: int| 0 <= i < ls.len() && ls[i] == "Name="@ + n
        },
        display_name_in(ls, display_name) is None <==> forall|i: int|
            0 <= i < ls.len() ==> !(has_prefix(#[trigger] ls[i], "Name="@) && equal_ignoring_ascii_case(
                ls[i].skip(5),
                display_name,
            )),
    decreases ls.len(),
{
    reveal_strlit("Name=");
    assert("Name="@ == name_key());
    if ls.len() > 0 {
        let rest = ls.drop_first();
        law_display_name_match_is_exact(rest, display_name);
        if names_application(ls[0], display_name) {
            assert(ls[0] =~= "Name="@ + ls[0].skip(5));
        } else {
            if let Some(n) = display_name_in(rest, display_name) {
                let i = choose|i: int| 0 <= i < rest.len() && rest[i] == "Name="@ + n;
                assert(ls[i + 1] == rest[i]);
            }
            assert forall|i: int| 0 <= i < rest.len() implies rest[i] == ls[i + 1] by {}
            if forall|i: int|
                0 <= i < rest.len() ==> !(has_prefix(#[trigger] rest[i], "Name="@) && equal_ignoring_ascii_case(
                    rest[i].skip(5),
                    display_name,
                )) {
                assert forall|i: int| 0 <= i < ls.len() implies !(has_prefix(#[trigger] ls[i], "Name="@)
                    && equal_ignoring_ascii_case(ls[i].skip(5), display_name)) by {
                    if i > 0 {
                        assert(ls[i] == rest[i - 1]);
                    }
                }
            } else {
                let i = choose|i: int|
                    0 <= i < rest.len() && (has_prefix(#[trigger] rest[i], "Name="@) && equal_ignoring_ascii_case(
                        rest[i].skip(5),
                        display_name,
                    ));
                assert(ls[i + 1] == rest[i]);
            }
        }
    }
}

/// Without base directories and with nothing excluded, the search
/// directories are the entries of `PATH` in reverse order.
pub proof fn law_path_directories_reversed(
    exclude: Seq<Seq<char>>,
    base: Seq<Seq<char>>,
    path: Seq<char>,
    present: Seq<bool>,
)
    requires
        base.len() > 0,
        base[0].len() == 0,
        exclude.len() > 0,
        exclude[0].len() == 0,
    ensures
        search_directories(exclude, base, path, present).len() == split_on(path, ':').len(),
        forall|i: int|
            0 <= i < split_on(path, ':').len() ==> #[trigger] search_directories(exclude, base, path, present)[i]
                == split_on(path, ':')[split_on(path, ':').len() - 1 - i],
{
}

proof fn lemma_not_excluded_keeps_order(dirs: Seq<Seq<char>>, exclude: Seq<Seq<char>>)
    ensures
        subsequence(not_excluded(dirs, exclude), dirs),
    decreases dirs.len(),
{
    if dirs.len() > 0 {
        let r = not_excluded(dirs.drop_last(), exclude);
        lemma_not_excluded_keeps_order(dirs.drop_last(), exclude);
        assert(dirs.drop_last().push(dirs.last()) == dirs);
        lemma_subsequence_extend(r, dirs.drop_last(), dirs.last());
        assert(r.push(dirs.last()).drop_last() == r);
    }
}

/// With exclusions, the search directories keep the reversed order of
/// `PATH`: they are a subsequence of its entries, last first.
pub proof fn law_path_directories_keep_order(
    exclude: Seq<Seq<char>>,
    base: Seq<Seq<char>>,
    path: Seq<char>,
    present: Seq<bool>,
)
    requires
        base.len() > 0,
        base[0].len() == 0,
        exclude.len() > 0,
        exclude[0].len() != 0,
    ensures
        subsequence(search_directories(exclude, base, path, present), split_on(path, ':').reverse()),
{
    lemma_not_excluded_keeps_order(split_on(path, ':').reverse(), exclude);
}

/// Where a search for a desktop entry by display name stands.
pub enum Lookup {
    /// Going through the files of the applications directories.
    Listing,
    /// Waiting for the contents of the desktop entry at `desktop_file_path`.
    Reading { desktop_file_path: String },
    /// Waiting for the user to say whether the entry at `desktop_file_path`,
    /// named `actual_display_name`, is the application.
    Asking { actual_display_name: String, desktop_file_path: String },
    /// The search is over.
    Done,
}

/// What the outside world reported back to a search by display name.
pub enum LookupEvent {
    /// The next file of the applications directory `app_dir`.
    FileListed { app_dir: String, file_name: String },
    /// The contents of the desktop entry asked for.
    FileRead { file_contents: String },
    /// The user's answer about the entry found.
    Answered { yes: bool },
    /// No file is left in any applications directory.
    DirectoriesExhausted,
}

/// What a search by display name does next.
pub enum LookupAction {
    /// Go on with the next file.
    NextFile,
    /// Read the desktop entry at `desktop_file_path`.
    ReadFile { desktop_file_path: String },
    /// Ask whether the entry at `desktop_file_path`, named
    /// `actual_display_name`, is the application.
    Ask { actual_display_name: String, desktop_file_path: String },
    /// The search ends with this display name and desktop entry path (empty
    /// when nothing was found).
    Found { display_name: String, desktop_file_path: String },
}

/// A search through the applications directories for a desktop entry named
/// `display_name`.
pub struct DisplayNameSearch {
    pub display_name: String,
    pub lookup: Lookup,
}

/// The path of `file_name` in the directory `app_dir` (which ends with `/`).
pub fn desktop_file_path(app_dir: &str, file_name: &str) -> (p: String)
    ensures
        p@ == app_dir@ + file_name@,
{
    concatenate(app_dir, file_name)
}

impl DisplayNameSearch {
    /// A search for `display_name`, about to go through the files.
    pub fn new(display_name: &str) -> (search: DisplayNameSearch)
        ensures
            search.display_name@ == display_name@,
            search.lookup is Listing,
    {
        DisplayNameSearch { display_name: display_name.to_owned(), lookup: Lookup::Listing }
    }

    /// The events that the search waits for.
    pub open spec fn accepts(&self, event: LookupEvent) -> bool {
        match self.lookup {
            Lookup::Listing => event is FileListed || event is DirectoriesExhausted,
            Lookup::Reading { .. } => event is FileRead,
            Lookup::Asking { .. } => event is Answered,
            Lookup::Done => false,
        }
    }

    /// Whether the search waits for `event`.
    pub fn can_take(&self, event: &LookupEvent) -> (b: bool)
        ensures
            b == self.accepts(*event),
    {
        match (&self.lookup, event) {
            (Lookup::Listing, LookupEvent::FileListed { .. }) => true,
            (Lookup::Listing, LookupEvent::DirectoriesExhausted) => true,
            (Lookup::Reading { .. }, LookupEvent::FileRead { .. }) => true,
            (Lookup::Asking { .. }, LookupEvent::Answered { .. }) => true,
            _ => false,
        }
    }

    /// Whether `next` and `action` are what `self` goes to on `event`: only
    /// `.desktop` files are read; an entry is asked about when one of its
    /// lines names the application; a yes ends the search with that entry, a
    /// no goes on with the next file; with no file left, the search ends
    /// with the name it was given and no path.
    pub open spec fn transition(self, event: LookupEvent, next: DisplayNameSearch, action: LookupAction) -> bool {
        &&& next.display_name@ == self.display_name@
        &&& match (self.lookup, event) {
            (Lookup::Listing, LookupEvent::FileListed { app_dir, file_name }) => {
                if has_suffix(file_name@, desktop_suffix()) {
                    &&& next.lookup matches Lookup::Reading { desktop_file_path: p }
                        && p@ == app_dir@ + file_name@
                    &&& action matches LookupAction::ReadFile { desktop_file_path: p }
                        && p@ == app_dir@ + file_name@
                } else {
                    next.lookup is Listing && action is NextFile
                }
            },
            (Lookup::Listing, LookupEvent::DirectoriesExhausted) => {
                &&& next.lookup is Done
                &&& action matches LookupAction::Found { display_name: d, desktop_file_path: p }
                    && d@ == self.display_name@ && p@.len() == 0
            },
            (Lookup::Reading { desktop_file_path }, LookupEvent::FileRead { file_contents }) => {
                match display_name_in(lines_of(file_contents@), self.display_name@) {
                    Some(name) => {
                        &&& next.lookup matches Lookup::Asking { actual_display_name: n, desktop_file_path: p }
                            && n@ == name && p@ == desktop_file_path@
                        &&& action matches LookupAction::Ask { actual_display_name: n, desktop_file_path: p }
                            && n@ == name && p@ == desktop_file_path@
                    },
                    None => next.lookup is Listing && action is NextFile,
                }
            },
            (Lookup::Asking { actual_display_name, desktop_file_path }, LookupEvent::Answered { yes }) => {
                if yes {
                    &&& next.lookup is Done
                    &&& action matches LookupAction::Found { display_name: d, desktop_file_path: p }
                        && d@ == actual_display_name@ && p@ == desktop_file_path@
                } else {
                    next.lookup is Listing && action is NextFile
                }
            },
            _ => false,
        }
    }

    /// Takes one step of the search.
    pub fn step(self, event: LookupEvent) -> (r: (DisplayNameSearch, LookupAction))
        requires
            self.accepts(event),
        ensures
            self.transition(event, r.0, r.1),
    {
        let DisplayNameSearch { display_name, lookup } = self;
        match (lookup, event) {
            (Lookup::Listing, LookupEvent::FileListed { app_dir, file_name }) => {
                if is_desktop_file_name(file_name.as_str()) {
                    let path = desktop_file_path(app_dir.as_str(), file_name.as_str());
                    let asked = path.clone();
                    (
                        DisplayNameSearch { display_name, lookup: Lookup::Reading { desktop_file_path: path } },
                        LookupAction::ReadFile { desktop_file_path: asked },
                    )
                } else {
                    (DisplayNameSearch { display_name, lookup: Lookup::Listing }, LookupAction::NextFile)
                }
            },
            (Lookup::Listing, LookupEvent::DirectoriesExhausted) => {
                let found = display_name.clone();
                (
                    DisplayNameSearch { display_name, lookup: Lookup::Done },
                    LookupAction::Found { display_name: found, desktop_file_path: String::new() },
                )
            },
            (Lookup::Reading { desktop_file_path }, LookupEvent::FileRead { file_contents }) => {
                match find_display_name(file_contents.as_str(), display_name.as_str()) {
                    Some(name) => {
                        let asked_name = name.clone();
                        let asked_path = desktop_file_path.clone();
                        (
                            DisplayNameSearch {
                                display_name,
                                lookup: Lookup::Asking { actual_display_name: name, desktop_file_path },
                            },
                            LookupAction::Ask { actual_display_name: asked_name, desktop_file_path: asked_path },
                        )
                    },
                    None => (DisplayNameSearch { display_name, lookup: Lookup::Listing }, LookupAction::NextFile),
                }
            },
            (Lookup::Asking { actual_display_name, desktop_file_path }, LookupEvent::Answered { yes }) => {
                if yes {
                    (
                        DisplayNameSearch { display_name, lookup: Lookup::Done },
                        LookupAction::Found { display_name: actual_display_name, desktop_file_path },
                    )
                } else {
                    (DisplayNameSearch { display_name, lookup: Lookup::Listing }, LookupAction::NextFile)
                }
            },
            _ => {
                assert(false);
                (DisplayNameSearch { display_name, lookup: Lookup::Done }, LookupAction::NextFile)
            },
        }
    }
}

} // verus!
