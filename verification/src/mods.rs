//! Naming downloaded mod folders: which file holds a mod's name, reading the
//! name out of it, and cleaning it into a valid folder name.
use vstd::prelude::*;

use crate::text::{
    chars_of, contains_str, contains_text, find_chars, find_from, lines_of, matches_at, same_text,
    split_lines, string_of,
};

verus! {

// ---------------------------------------------------------------------------
// Mathematical model
// ---------------------------------------------------------------------------

/// `c` is an ASCII control character (U+0000..=U+001F or U+007F), as
/// `char::is_ascii_control` decides.
pub open spec fn is_ascii_control(c: char) -> bool {
    (c as u32) <= 0x1f || (c as u32) == 0x7f
}

/// `c` may not stand in a folder name.
pub open spec fn is_forbidden_in_folder(c: char) -> bool {
    ||| is_ascii_control(c)
    ||| c == '\\'
    ||| c == '/'
    ||| c == ':'
    ||| c == '*'
    ||| c == '?'
    ||| c == '"'
    ||| c == '<'
    ||| c == '>'
    ||| c == '|'
    ||| c == ' '
}

/// The characters of `s` that may stand in a folder name, in order.
pub open spec fn folder_chars(s: Seq<char>) -> Seq<char>
    decreases s.len(),
{
    if s.len() == 0 {
        Seq::<char>::empty()
    } else {
        let prev = folder_chars(s.drop_last());
        if is_forbidden_in_folder(s.last()) {
            prev
        } else {
            prev.push(s.last())
        }
    }
}

/// RimWorld's Steam app id, `"294100"`, the program's default.
pub open spec fn rimworld_appid() -> Seq<char> {
    seq!['2', '9', '4', '1', '0', '0']
}

/// A transposed spelling of RimWorld's app id, `"291400"`, also taken for
/// RimWorld.
pub open spec fn rimworld_alt_appid() -> Seq<char> {
    seq!['2', '9', '1', '4', '0', '0']
}

/// `appid` names RimWorld.
pub open spec fn is_rimworld_appid(appid: Seq<char>) -> bool {
    appid == rimworld_appid() || appid == rimworld_alt_appid()
}

/// Kenshi's Steam app id, `"233860"`.
pub open spec fn kenshi_appid() -> Seq<char> {
    seq!['2', '3', '3', '8', '6', '0']
}

/// The subfolder of a RimWorld mod that holds its description: `"\\About"`.
pub open spec fn about_subfolder() -> Seq<char> {
    seq!['\\', 'A', 'b', 'o', 'u', 't']
}

/// The file of a RimWorld mod that holds its name: `"About.xml"`.
pub open spec fn about_file() -> Seq<char> {
    seq!['A', 'b', 'o', 'u', 't', '.', 'x', 'm', 'l']
}

/// The tag that opens a mod's name: `"<name>"`.
pub open spec fn name_tag() -> Seq<char> {
    seq!['<', 'n', 'a', 'm', 'e', '>']
}

/// The extension of a Kenshi mod file: `"mod"`.
pub open spec fn kenshi_ext() -> Seq<char> {
    seq!['m', 'o', 'd']
}

/// Why no mod name could be read.
#[derive(PartialEq, Eq, Structural, Clone, Copy, Debug)]
pub enum NameError {
    /// No line holds the start tag.
    NoTagLine,
    /// The line that holds the start tag has no `'>'`.
    NoStartBracket,
    /// The line has no `'<'` after its first `'>'`.
    NoEndBracket,
}

/// The text of a line between its first `'>'` and the next `'<'`.
pub open spec fn name_in_line(line: Seq<char>) -> Result<Seq<char>, NameError> {
    match find_from(line, seq!['>'], 0) {
        None => Err(NameError::NoStartBracket),
        Some(f) => match find_from(line, seq!['<'], f + 1) {
            None => Err(NameError::NoEndBracket),
            Some(g) => Ok(line.subrange(f + 1, g)),
        },
    }
}

/// The name read from the first line that holds `tag`.
pub open spec fn mod_name_in_lines(lines: Seq<Seq<char>>, tag: Seq<char>) -> Result<
    Seq<char>,
    NameError,
>
    decreases lines.len(),
{
    if lines.len() == 0 {
        Err(NameError::NoTagLine)
    } else if contains_text(lines[0], tag) {
        name_in_line(lines[0])
    } else {
        mod_name_in_lines(lines.drop_first(), tag)
    }
}

/// The stem of a file name whose only `'.'` is not its first character and
/// is followed by exactly `ext`; `None` for any other name.
pub open spec fn single_dot_stem(name: Seq<char>, ext: Seq<char>) -> Option<Seq<char>> {
    match find_from(name, seq!['.'], 0) {
        Some(p) => if p > 0 && name.subrange(p + 1, name.len() as int) == ext
            && find_from(name.subrange(p + 1, name.len() as int), seq!['.'], 0) is None {
            Some(name.subrange(0, p))
        } else {
            None
        },
        None => None,
    }
}

/// The stem of the first listed file with a single-dot name ending in `ext`;
/// empty when there is none.
pub open spec fn first_stem_with_ext(names: Seq<Seq<char>>, ext: Seq<char>) -> Seq<char>
    decreases names.len(),
{
    if names.len() == 0 {
        Seq::<char>::empty()
    } else {
        match single_dot_stem(names[0], ext) {
            Some(stem) => stem,
            None => first_stem_with_ext(names.drop_first(), ext),
        }
    }
}

// ---------------------------------------------------------------------------
// Laws
// ---------------------------------------------------------------------------

/// Every character of a cleaned folder name may stand in a folder name.
pub proof fn law_clean_name_is_valid(s: Seq<char>)
    ensures
        forall|k: int|
            0 <= k < folder_chars(s).len() ==> !is_forbidden_in_folder(
                #[trigger] folder_chars(s)[k],
            ),
    decreases s.len(),
{
    if s.len() > 0 {
        let p = s.drop_last();
        law_clean_name_is_valid(p);
        let prev = folder_chars(p);
        assert forall|k: int|
            0 <= k < folder_chars(s).len() implies !is_forbidden_in_folder(
            #[trigger] folder_chars(s)[k],
        ) by {
            if k < prev.len() {
                assert(folder_chars(s)[k] == prev[k]);
            }
        }
    }
}

/// A name without forbidden characters is left as it is.
pub proof fn law_clean_keeps_valid_name(s: Seq<char>)
    requires
        forall|k: int| 0 <= k < s.len() ==> !is_forbidden_in_folder(#[trigger] s[k]),
    ensures
        folder_chars(s) == s,
    decreases s.len(),
{
    if s.len() > 0 {
        let p = s.drop_last();
        assert forall|k: int| 0 <= k < p.len() implies !is_forbidden_in_folder(
            #[trigger] p[k],
        ) by {
            assert(p[k] == s[k]);
        }
        law_clean_keeps_valid_name(p);
        assert(!is_forbidden_in_folder(s[s.len() - 1]));
        assert(p.push(s.last()) =~= s);
    }
}

/// A character other than an ASCII control character and `\ / : * ? " < > |`
/// and the space is kept by cleaning.
pub proof fn law_clean_keeps_other_chars(c: char)
    requires
        (c as u32) > 0x1f,
        (c as u32) != 0x7f,
        c != '\\',
        c != '/',
        c != ':',
        c != '*',
        c != '?',
        c != '"',
        c != '<',
        c != '>',
        c != '|',
        c != ' ',
    ensures
        folder_chars(seq![c]) == seq![c],
{
    let s = seq![c];
    assert(s.drop_last() =~= Seq::<char>::empty());
    assert(s.last() == c);
    assert(folder_chars(Seq::<char>::empty()) == Seq::<char>::empty());
    assert(!is_forbidden_in_folder(c));
    assert(folder_chars(s) == folder_chars(s.drop_last()).push(c));
    assert(Seq::<char>::empty().push(c) =~= s);
}

/// ASCII control characters and `\ / : * ? " < > |` and the space are left
/// out by cleaning.
pub proof fn law_clean_drops_forbidden_chars(c: char)
    requires
        (c as u32) <= 0x1f || (c as u32) == 0x7f || c == '\\' || c == '/' || c == ':' || c
            == '*' || c == '?' || c == '"' || c == '<' || c == '>' || c == '|' || c == ' ',
    ensures
        folder_chars(seq![c]) == Seq::<char>::empty(),
{
    let s = seq![c];
    assert(s.drop_last() =~= Seq::<char>::empty());
    assert(s.last() == c);
    assert(folder_chars(Seq::<char>::empty()) == Seq::<char>::empty());
    assert(is_forbidden_in_folder(c));
    assert(folder_chars(s) == folder_chars(s.drop_last()));
}

/// Cleaning two names joined is joining the two cleaned names.
pub proof fn law_clean_distributes_over_concat(a: Seq<char>, b: Seq<char>)
    ensures
        folder_chars(a + b) == folder_chars(a) + folder_chars(b),
    decreases b.len(),
{
    if b.len() == 0 {
        assert(a + b =~= a);
        assert(folder_chars(b) =~= Seq::<char>::empty());
        assert(folder_chars(a) + folder_chars(b) =~= folder_chars(a));
    } else {
        let b0 = b.drop_last();
        law_clean_distributes_over_concat(a, b0);
        assert((a + b).drop_last() =~= a + b0);
        assert((a + b).last() == b.last());
        if !is_forbidden_in_folder(b.last()) {
            assert((folder_chars(a) + folder_chars(b0)).push(b.last()) =~= folder_chars(a)
                + folder_chars(b0).push(b.last()));
        }
    }
}

/// Cleaning a folder name twice is the same as cleaning it once.
pub proof fn law_clean_idempotent(s: Seq<char>)
    ensures
        folder_chars(folder_chars(s)) == folder_chars(s),
{
    law_clean_name_is_valid(s);
    law_clean_keeps_valid_name(folder_chars(s));
}

/// A name `<stem>.<ext>` whose stem is not empty and holds no `'.'`, and
/// whose extension holds no `'.'`, has that stem.
proof fn lemma_single_dot_stem_of(stem: Seq<char>, ext: Seq<char>)
    requires
        stem.len() > 0,
        !stem.contains('.'),
        !ext.contains('.'),
    ensures
        single_dot_stem(stem + seq!['.'] + ext, ext) == Some(stem),
{
    let n = stem + seq!['.'] + ext;
    let dot = seq!['.'];
    assert forall|k: int| 0 <= k < stem.len() implies !matches_at(n, dot, k) by {
        assert(n[k] == stem[k]);
        if n[k] == '.' {
            assert(stem.contains('.'));
        }
        crate::urls::lemma_no_match_at(n, dot, k);
    }
    crate::urls::lemma_find_skip(n, dot, 0, stem.len() as int);
    assert(n.subrange(stem.len() as int, stem.len() + 1int) =~= dot);
    assert(find_from(n, dot, 0) == Some(stem.len() as int));
    assert(n.subrange(stem.len() + 1int, n.len() as int) =~= ext);
    assert(n.subrange(0, stem.len() as int) =~= stem);
    crate::text::lemma_find_found(ext, dot, 0);
    if find_from(ext, dot, 0) is Some {
        let i = find_from(ext, dot, 0)->0;
        assert(ext.subrange(i, i + 1)[0] == ext[i]);
        assert(ext.contains('.'));
    }
}

/// A name whose stem is found has the form `<stem>.<ext>`, with a stem
/// that is not empty and holds no `'.'`.
proof fn lemma_single_dot_stem_shape(n: Seq<char>, ext: Seq<char>)
    requires
        single_dot_stem(n, ext) is Some,
    ensures
        ({
            let stem = single_dot_stem(n, ext)->0;
            &&& stem.len() > 0
            &&& !stem.contains('.')
            &&& n == stem + seq!['.'] + ext
        }),
{
    let dot = seq!['.'];
    crate::text::lemma_find_found(n, dot, 0);
    let p = find_from(n, dot, 0)->0;
    let stem = n.subrange(0, p);
    assert(n.subrange(p, p + 1)[0] == n[p]);
    if stem.contains('.') {
        let k = choose|k: int| 0 <= k < stem.len() && stem[k] == '.';
        assert(n.subrange(k, k + 1) =~= dot);
        assert(matches_at(n, dot, k));
    }
    assert(n =~= stem + seq!['.'] + n.subrange(p + 1, n.len() as int));
}

// ---------------------------------------------------------------------------
// Laws on finding a mod's file and reading its name
// ---------------------------------------------------------------------------

/// The first file is chosen when its name is `<stem>.<ext>` with a stem that
/// is not empty and holds no `'.'`: the result is that stem, whatever
/// files follow.
pub proof fn law_first_qualifying_file_chosen(
    stem: Seq<char>,
    ext: Seq<char>,
    rest: Seq<Seq<char>>,
)
    requires
        stem.len() > 0,
        !stem.contains('.'),
        !ext.contains('.'),
    ensures
        first_stem_with_ext(seq![stem + seq!['.'] + ext] + rest, ext) == stem,
{
    let names = seq![stem + seq!['.'] + ext] + rest;
    assert(names[0] == stem + seq!['.'] + ext);
    lemma_single_dot_stem_of(stem, ext);
}

/// A first file whose name has no such form is passed over.
pub proof fn law_other_file_passed_over(n: Seq<char>, ext: Seq<char>, rest: Seq<Seq<char>>)
    requires
        forall|stem: Seq<char>|
            #![trigger stem + seq!['.'] + ext]
            stem.len() > 0 && !stem.contains('.') ==> n != stem + seq!['.'] + ext,
    ensures
        first_stem_with_ext(seq![n] + rest, ext) == first_stem_with_ext(rest, ext),
{
    let names = seq![n] + rest;
    assert(names[0] == n);
    assert(names.drop_first() =~= rest);
    if single_dot_stem(n, ext) is Some {
        lemma_single_dot_stem_shape(n, ext);
        let stem = single_dot_stem(n, ext)->0;
        assert(n == stem + seq!['.'] + ext);
    }
}

/// No file qualifies in an empty folder.
pub proof fn law_no_file_no_stem(ext: Seq<char>)
    ensures
        first_stem_with_ext(Seq::<Seq<char>>::empty(), ext) == Seq::<char>::empty(),
{
}

/// The name on a line `<a>><n><<b>`, where `a` holds no `'>'` and `n` no
/// `'<'`, is the whole of `n`, whatever its length.
pub proof fn law_name_between_brackets(a: Seq<char>, n: Seq<char>, b: Seq<char>)
    requires
        !a.contains('>'),
        !n.contains('<'),
    ensures
        name_in_line(a + seq!['>'] + n + seq!['<'] + b) == Ok::<Seq<char>, NameError>(n),
{
    let line = a + seq!['>'] + n + seq!['<'] + b;
    let gt = seq!['>'];
    let lt = seq!['<'];
    assert forall|k: int| 0 <= k < a.len() implies !matches_at(line, gt, k) by {
        assert(line[k] == a[k]);
        if line[k] == '>' {
            assert(a.contains('>'));
        }
        crate::urls::lemma_no_match_at(line, gt, k);
    }
    crate::urls::lemma_find_skip(line, gt, 0, a.len() as int);
    assert(line.subrange(a.len() as int, a.len() + 1int) =~= gt);
    assert(find_from(line, gt, 0) == Some(a.len() as int));
    let start: int = a.len() + 1int;
    let stop: int = start + n.len();
    assert forall|k: int| start <= k < stop implies !matches_at(line, lt, k) by {
        assert(line[k] == n[k - start]);
        if line[k] == '<' {
            assert(n.contains('<'));
        }
        crate::urls::lemma_no_match_at(line, lt, k);
    }
    crate::urls::lemma_find_skip(line, lt, start, stop);
    assert(line.subrange(stop, stop + 1) =~= lt);
    assert(find_from(line, lt, start) == Some(stop));
    assert(line.subrange(start, stop) =~= n);
}

/// The name comes from the first line that holds the tag: a first line
/// holding it gives the name on that line, and a first line without it is
/// passed over.
pub proof fn law_name_from_first_tag_line(l: Seq<char>, rest: Seq<Seq<char>>, tag: Seq<char>)
    ensures
        contains_text(l, tag) ==> mod_name_in_lines(seq![l] + rest, tag) == name_in_line(l),
        !contains_text(l, tag) ==> mod_name_in_lines(seq![l] + rest, tag) == mod_name_in_lines(
            rest,
            tag,
        ),
{
    let lines = seq![l] + rest;
    assert(lines[0] == l);
    assert(lines.drop_first() =~= rest);
}

// ---------------------------------------------------------------------------
// Executable functions
// ---------------------------------------------------------------------------

/// Whether `c` is an ASCII control character.
fn is_control(c: char) -> (r: bool)
    ensures
        r == is_ascii_control(c),
{
    let n = c as u32;
    n <= 0x1f || n == 0x7f
}

/// Whether `c` may not stand in a folder name.
pub fn forbidden_in_folder(c: char) -> (r: bool)
    ensures
        r == is_forbidden_in_folder(c),
{
    is_control(c) || c == '\\' || c == '/' || c == ':' || c == '*' || c == '?' || c == '"' || c
        == '<' || c == '>' || c == '|' || c == ' '
}

/// The name with every character left out that may not stand in a folder
/// name: ASCII control characters, `\ / : * ? " < > |` and the space.
pub fn clean_folder_name(s: &str) -> (r: String)
    ensures
        r@ == folder_chars(s@),
{
    let chars = chars_of(s);
    let mut out = String::new();
    let mut i: usize = 0;
    assert(s@.take(0) =~= Seq::<char>::empty());
    while i < chars.len()
        invariant
            chars@ == s@,
            i <= chars@.len(),
            out@ == folder_chars(s@.take(i as int)),
        decreases chars.len() - i,
    {
        let c = chars[i];
        proof {
            assert(s@.take(i + 1).drop_last() =~= s@.take(i as int));
            assert(s@.take(i + 1).last() == c);
        }
        if !forbidden_in_folder(c) {
            crate::text::push_char(&mut out, c);
        }
        i += 1;
    }
    assert(s@.take(chars@.len() as int) =~= s@);
    out
}

/// Where to find the name of a downloaded mod.
pub struct ModInfo {
    /// The folder that holds the file.
    pub path: String,
    /// The file that holds the name.
    pub file_name: String,
    /// The tag that opens the name in that file.
    pub start_tag: String,
}

/// The games whose mods can be renamed.
#[derive(PartialEq, Eq, Structural, Clone, Copy, Debug)]
pub enum Game {
    Rimworld,
    Kenshi,
    Unsupported,
}

/// The game that a Steam app id names.
pub fn game_of(appid: &str) -> (r: Game)
    ensures
        is_rimworld_appid(appid@) ==> r == Game::Rimworld,
        appid@ == kenshi_appid() ==> r == Game::Kenshi,
        !is_rimworld_appid(appid@) && appid@ != kenshi_appid() ==> r == Game::Unsupported,
{
    proof {
        reveal_strlit("294100");
        reveal_strlit("291400");
        reveal_strlit("233860");
        assert("294100"@ =~= rimworld_appid());
        assert("291400"@ =~= rimworld_alt_appid());
        assert("233860"@ =~= kenshi_appid());
    }
    if same_text(appid, "294100") || same_text(appid, "291400") {
        Game::Rimworld
    } else if same_text(appid, "233860") {
        Game::Kenshi
    } else {
        Game::Unsupported
    }
}

/// Where the name of the mod in folder `oldpath` is to be read. For RimWorld
/// it is `About.xml` in the `About` subfolder; for Kenshi it is the mod file
/// found in the folder (`kenshi_mod_file`, `None` when there is none); other
/// games have none.
pub fn get_modinfo(oldpath: &str, appid: &str, kenshi_mod_file: Option<String>) -> (r: Option<
    ModInfo,
>)
    ensures
        is_rimworld_appid(appid@) ==> (r matches Some(info) && info.path@ == oldpath@
            + about_subfolder() && info.file_name@ == about_file() && info.start_tag@
            == name_tag()),
        appid@ == kenshi_appid() ==> match kenshi_mod_file {
            Some(f) => r matches Some(info) && info.path@ == oldpath@ && info.file_name@ == f@
                && info.start_tag@ == name_tag(),
            None => r is None,
        },
        !is_rimworld_appid(appid@) && appid@ != kenshi_appid() ==> r is None,
{
    proof {
        reveal_strlit("\\About");
        reveal_strlit("About.xml");
        reveal_strlit("<name>");
        assert("\\About"@ =~= about_subfolder());
        assert("About.xml"@ =~= about_file());
        assert("<name>"@ =~= name_tag());
    }
    match game_of(appid) {
        Game::Rimworld => {
            let mut path = String::from_str(oldpath);
            path.append("\\About");
            Some(
                ModInfo {
                    path,
                    file_name: String::from_str("About.xml"),
                    start_tag: String::from_str("<name>"),
                },
            )
        },
        Game::Kenshi => match kenshi_mod_file {
            Some(kmod_name) => Some(
                ModInfo {
                    path: String::from_str(oldpath),
                    file_name: kmod_name,
                    start_tag: String::from_str("<name>"),
                },
            ),
            None => None,
        },
        Game::Unsupported => None,
    }
}

/// The name on a line: the text between its first `'>'` and the next `'<'`.
fn name_on_line(line: &str) -> (r: Result<String, NameError>)
    ensures
        match r {
            Ok(name) => name_in_line(line@) == Ok::<Seq<char>, NameError>(name@),
            Err(e) => name_in_line(line@) == Err::<Seq<char>, NameError>(e),
        },
{
    let chars = chars_of(line);
    let mut gt: Vec<char> = Vec::new();
    gt.push('>');
    let mut lt: Vec<char> = Vec::new();
    lt.push('<');
    assert(gt@ =~= seq!['>']);
    assert(lt@ =~= seq!['<']);
    // The length bounds every position found below.
    let _n = chars.len();
    match find_chars(&chars, &gt, 0) {
        None => Err(NameError::NoStartBracket),
        Some(first) => match find_chars(&chars, &lt, first + 1) {
            None => Err(NameError::NoEndBracket),
            Some(second) => Ok(string_of(&chars, first + 1, second)),
        },
    }
}

/// The name of a mod, read from the text of the file that holds it: on the
/// first line that holds `start_tag`, the text between the line's first
/// `'>'` and the next `'<'`. The error tells which of these is missing.
pub fn get_mod_name(contents: &str, start_tag: &str) -> (r: Result<String, NameError>)
    ensures
        match r {
            Ok(name) => mod_name_in_lines(lines_of(contents@), start_tag@) == Ok::<
                Seq<char>,
                NameError,
            >(name@),
            Err(e) => mod_name_in_lines(lines_of(contents@), start_tag@) == Err::<
                Seq<char>,
                NameError,
            >(e),
        },
{
    let lines = split_lines(contents);
    let ghost all = lines.deep_view();
    let mut i: usize = 0;
    assert(all.skip(0) =~= all);
    while i < lines.len()
        invariant
            all == lines.deep_view(),
            all == lines_of(contents@),
            i <= lines@.len(),
            mod_name_in_lines(all, start_tag@) == mod_name_in_lines(all.skip(i as int), start_tag@),
        decreases lines.len() - i,
    {
        let line = lines[i].as_str();
        proof {
            assert(all.skip(i as int)[0] == line@);
            assert(all.skip(i as int).drop_first() =~= all.skip(i + 1));
        }
        if contains_str(line, start_tag) {
            return name_on_line(line);
        }
        i += 1;
    }
    Err(NameError::NoTagLine)
}

/// The stem of a file name whose only `'.'` is not its first character and
/// is followed by exactly `ext`.
fn stem_with_ext(name: &str, ext: &str) -> (r: Option<String>)
    ensures
        r.deep_view() == single_dot_stem(name@, ext@),
{
    let chars = chars_of(name);
    let mut dot: Vec<char> = Vec::new();
    dot.push('.');
    assert(dot@ =~= seq!['.']);
    let n = chars.len();
    match find_chars(&chars, &dot, 0) {
        None => None,
        Some(p) => {
            let after = string_of(&chars, p + 1, n);
            let after_chars = chars_of(after.as_str());
            if p > 0 && same_text(after.as_str(), ext) && find_chars(&after_chars, &dot, 0).is_none() {
                Some(string_of(&chars, 0, p))
            } else {
                None
            }
        },
    }
}

/// The stem of the first listed file whose name has a single `'.'`, not at
/// its start, followed by `ext`; empty when no file qualifies.
pub fn find_file_from_ext(file_names: &Vec<String>, ext: &str) -> (r: String)
    ensures
        r@ == first_stem_with_ext(file_names.deep_view(), ext@),
{
    let ghost all = file_names.deep_view();
    let mut i: usize = 0;
    assert(all.skip(0) =~= all);
    while i < file_names.len()
        invariant
            all == file_names.deep_view(),
            i <= file_names@.len(),
            first_stem_with_ext(all, ext@) == first_stem_with_ext(all.skip(i as int), ext@),
        decreases file_names.len() - i,
    {
        proof {
            assert(all.skip(i as int)[0] == file_names@[i as int]@);
            assert(all.skip(i as int).drop_first() =~= all.skip(i + 1));
        }
        match stem_with_ext(file_names[i].as_str(), ext) {
            Some(stem) => {
                return stem;
            },
            None => {},
        }
        i += 1;
    }
    String::new()
}

/// The name of the Kenshi mod file among the files of a mod folder: the stem
/// of the first `<stem>.mod` file; `None` when there is none.
pub fn find_kenshimod_file(file_names: &Vec<String>) -> (r: Option<String>)
    ensures
        ({
            let stem = first_stem_with_ext(file_names.deep_view(), kenshi_ext());
            r.deep_view() == if stem.len() > 0 {
                Some(stem)
            } else {
                None::<Seq<char>>
            }
        }),
{
    proof {
        reveal_strlit("mod");
        assert("mod"@ =~= kenshi_ext());
    }
    let mod_file = find_file_from_ext(file_names, "mod");
    if mod_file.as_str().unicode_len() > 0 {
        Some(mod_file)
    } else {
        None
    }
}

/// The new name of a mod folder: for Kenshi the name of its mod file; for
/// the other games the mod's name read from its file, cleaned into a valid
/// folder name (`None` when no name could be read).
pub fn new_folder_name(appid: &str, info: &ModInfo, mod_name: Option<String>) -> (r: Option<
    String,
>)
    ensures
        appid@ == kenshi_appid() ==> r.deep_view() == Some(info.file_name@),
        appid@ != kenshi_appid() ==> r.deep_view() == match mod_name {
            Some(n) => Some(folder_chars(n@)),
            None => None,
        },
{
    proof {
        reveal_strlit("233860");
        assert("233860"@ =~= kenshi_appid());
    }
    if !same_text(appid, "233860") {
        match mod_name {
            Some(data) => Some(clean_folder_name(data.as_str())),
            None => None,
        }
    } else {
        Some(info.file_name.clone())
    }
}

} // verus!
