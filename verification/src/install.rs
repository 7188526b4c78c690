//! The on-disk layout the session relies on: the application directories
//! under the user's home, and the display name a stored hangar file is shown
//! under in the selection menu.
//!
//! Creating and reading the directories is outside work; this module only
//! builds the paths and transforms file names.

use vstd::prelude::*;

use crate::text::{push_char, str_eq};

verus! {

/// The two filesystem paths the install bootstrap works with: the install
/// root (whose presence is the "installed" signal) and its data directory,
/// which holds one stored hangar file per hangar.
#[derive(Debug)]
pub struct InstallInfo {
    pub install: String,
    pub data: String,
}

/// Why the install bootstrap failed: one of the two directories could not be
/// created. Fatal at startup.
#[derive(PartialEq, Eq, Structural, Clone, Copy, Debug)]
pub enum InstallError {
    AppFolderCreateError,
    DataFolderCreateError,
}

/// Build the application directory paths under the given home directory.
pub fn build_app_directories(home_dir: &str) -> (r: InstallInfo)
    ensures
        r.install@ == home_dir@ + "/.hangar"@,
        r.data@ == r.install@ + "/data"@,
{
    let mut install = String::from_str(home_dir);
    install.append("/.hangar");
    let mut data = install.clone();
    data.append("/data");
    InstallInfo { install, data }
}

/// The part of a path after its last `/`: the whole path when it has none,
/// and empty when it ends in one.
pub open spec fn last_component(s: Seq<char>) -> Seq<char>
    decreases s.len(),
{
    if s.len() == 0 {
        s
    } else if s.last() == '/' {
        Seq::<char>::empty()
    } else {
        last_component(s.drop_last()).push(s.last())
    }
}

proof fn lemma_last_component_no_sep(s: Seq<char>)
    requires
        forall|k: int| 0 <= k < s.len() ==> s[k] != '/',
    ensures
        last_component(s) == s,
    decreases s.len(),
{
    if s.len() > 0 {
        lemma_last_component_no_sep(s.drop_last());
        assert(s.drop_last().push(s.last()) =~= s);
    }
}

proof fn lemma_last_component_after_sep(s: Seq<char>, j: int)
    requires
        0 <= j < s.len(),
        s[j] == '/',
        forall|k: int| j < k < s.len() ==> s[k] != '/',
    ensures
        last_component(s) == s.skip(j + 1),
    decreases s.len(),
{
    if j == s.len() - 1 {
        assert(s.skip(j + 1) =~= Seq::<char>::empty());
    } else {
        lemma_last_component_after_sep(s.drop_last(), j);
        assert(s.drop_last().skip(j + 1).push(s.last()) =~= s.skip(j + 1));
    }
}

/// Every hyphen turned into a space, character for character.
pub open spec fn dash_to_space(s: Seq<char>) -> Seq<char> {
    s.map_values(|c: char| if c == '-' { ' ' } else { c })
}

/// The sequence with a final `.json` removed, when it ends in one.
pub open spec fn strip_json_suffix(s: Seq<char>) -> Seq<char> {
    if s.len() >= 5 && s.subrange(s.len() - 5, s.len() as int) == ".json"@ {
        s.take(s.len() - 5)
    } else {
        s
    }
}

/// The displayable stem of a stored hangar file's path: its file name with
/// hyphens turned into spaces and a final `.json` removed.
pub open spec fn display_stem_spec(path: Seq<char>) -> Seq<char> {
    strip_json_suffix(dash_to_space(last_component(path)))
}

/// The character index of the last `/` in `s`, if it has one.
fn find_last_slash(s: &str) -> (r: Option<usize>)
    ensures
        match r {
            Some(j) => j < s@.len() && s@[j as int] == '/' && forall|k: int|
                j < k < s@.len() ==> s@[k] != '/',
            None => forall|k: int| 0 <= k < s@.len() ==> s@[k] != '/',
        },
{
    let len = s.unicode_len();
    let mut i: usize = len;
    while i > 0
        invariant
            i <= len,
            len == s@.len(),
            forall|k: int| i <= k < len ==> s@[k] != '/',
        decreases i,
    {
        if s.get_char(i - 1) == '/' {
            return Some(i - 1);
        }
        i = i - 1;
    }
    None
}

/// Compute the displayable stem of a stored hangar file's path.
pub fn display_stem(path: &str) -> (r: String)
    ensures
        r@ == display_stem_spec(path@),
{
    let len = path.unicode_len();
    let start: usize = match find_last_slash(path) {
        Some(j) => j + 1,
        None => 0,
    };
    let tail = path.substring_char(start, len);
    proof {
        if start == 0 {
            assert(tail@ =~= path@);
            lemma_last_component_no_sep(path@);
        } else {
            assert(tail@ =~= path@.skip(start as int));
            lemma_last_component_after_sep(path@, start - 1);
        }
    }
    let tail_len = tail.unicode_len();
    let mut spaced = String::new();
    let mut i: usize = 0;
    proof {
        assert(spaced@ =~= dash_to_space(tail@.take(0)));
    }
    while i < tail_len
        invariant
            i <= tail_len,
            tail_len == tail@.len(),
            spaced@ == dash_to_space(tail@.take(i as int)),
        decreases tail_len - i,
    {
        let c = tail.get_char(i);
        if c == '-' {
            push_char(&mut spaced, ' ');
        } else {
            push_char(&mut spaced, c);
        }
        proof {
            assert(tail@.take(i + 1) =~= tail@.take(i as int).push(tail@[i as int]));
            assert(dash_to_space(tail@.take(i + 1)) =~= dash_to_space(tail@.take(i as int)).push(
                if tail@[i as int] == '-' {
                    ' '
                } else {
                    tail@[i as int]
                },
            ));
        }
        i = i + 1;
    }
    proof {
        assert(tail@.take(tail_len as int) =~= tail@);
    }
    let spaced_len = spaced.as_str().unicode_len();
    if spaced_len >= 5 {
        let suffix = spaced.as_str().substring_char(spaced_len - 5, spaced_len);
        if str_eq(suffix, ".json") {
            let stem = spaced.as_str().substring_char(0, spaced_len - 5).to_owned();
            proof {
                assert(stem@ =~= spaced@.take(spaced@.len() - 5));
            }
            return stem;
        }
    }
    spaced
}

/// What `titlecase::titlecase` returns for a given text.
pub uninterp spec fn title_of(s: Seq<char>) -> Seq<char>;

/// Relies on titlecase::titlecase: capitalises English text by fixed rules,
/// and the result is a function of the input text alone.
#[verifier::external_body]
fn title_case(s: &str) -> (r: String)
    ensures
        r@ == title_of(s@),
{
    titlecase::titlecase(s)
}

/// The display name a stored hangar file is shown under: the file name with
/// hyphens turned into spaces and a final `.json` removed, in title case.
pub fn display_name_from_filename(path: &str) -> (r: String)
    ensures
        r@ == title_of(display_stem_spec(path@)),
{
    let stem = display_stem(path);
    title_case(stem.as_str())
}

} // verus!
