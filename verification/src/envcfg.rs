//! The `KEY=value` file that is folded into the process environment at startup,
//! so a renderer started from this environment inherits it.
//!
//! Existing environment variables are never overwritten -- the shell, the
//! systemd unit, or `env VAR=... orbit-rs` still wins over the file.
use vstd::prelude::*;

use crate::text::{before, lemma_before, trim_end_spec, trim_spec, trim_start_spec, white};
use crate::text::{chars_of, count_before, same, skip_chars, starts_with, take_chars};
use crate::text::{law_trim, law_trim_gives_back, lemma_trim_end, lemma_trim_start};
use crate::text::{trim, trim_end, trim_start, views};

verus! {

// --- which file ---------------------------------------------------------------

/// What `ORBIT_ENV_FILE` asks for.
pub enum EnvFile {
    /// Load nothing.
    Skip,
    /// Load this file.
    Explicit(String),
    /// Load the first of the default files that is there.
    Search,
}

/// What `ORBIT_ENV_FILE` asks for, as plain values.
#[verifier::ext_equal]
pub enum EnvFileView {
    Skip,
    Explicit(Seq<char>),
    Search,
}

impl View for EnvFile {
    type V = EnvFileView;

    open spec fn view(&self) -> EnvFileView {
        match self {
            EnvFile::Skip => EnvFileView::Skip,
            EnvFile::Explicit(path) => EnvFileView::Explicit(path@),
            EnvFile::Search => EnvFileView::Search,
        }
    }
}

/// What the variable asks for: a search if it is not set, nothing if it is
/// empty or `none`, else the file that it names.
pub open spec fn asked_for(var: Option<Seq<char>>) -> EnvFileView {
    match var {
        None => EnvFileView::Search,
        Some(v) => if v.len() == 0 || v == "none"@ {
            EnvFileView::Skip
        } else {
            EnvFileView::Explicit(v)
        },
    }
}

/// Which file to load: `None` stands for an unset `ORBIT_ENV_FILE`.
pub fn env_file(var: Option<&str>) -> (file: EnvFile)
    ensures
        file@ == asked_for(
            match var {
                Some(v) => Some(v@),
                None => None,
            },
        ),
{
    match var {
        None => EnvFile::Search,
        Some(v) => {
            if v.is_empty() || same(v, "none") {
                EnvFile::Skip
            } else {
                EnvFile::Explicit(v.to_owned())
            }
        },
    }
}

/// Where the settings come from.
pub enum EnvSource {
    /// From nowhere: none are wanted.
    Nothing,
    /// From nowhere: what was named is not a file. The default files are not
    /// looked for instead.
    Missing(String),
    /// From the file that was named.
    Named(String),
    /// From the default file of this number.
    Default(usize),
    /// From nowhere: no default file is there.
    NoDefault,
}

/// Where the settings come from, as plain values.
#[verifier::ext_equal]
pub enum EnvSourceView {
    Nothing,
    Missing(Seq<char>),
    Named(Seq<char>),
    Default(int),
    NoDefault,
}

impl View for EnvSource {
    type V = EnvSourceView;

    open spec fn view(&self) -> EnvSourceView {
        match self {
            EnvSource::Nothing => EnvSourceView::Nothing,
            EnvSource::Missing(path) => EnvSourceView::Missing(path@),
            EnvSource::Named(path) => EnvSourceView::Named(path@),
            EnvSource::Default(i) => EnvSourceView::Default(*i as int),
            EnvSource::NoDefault => EnvSourceView::NoDefault,
        }
    }
}

impl EnvSourceView {
    /// A file is read.
    pub open spec fn reads(self) -> bool {
        self is Named || self is Default
    }
}

/// The first that is there.
pub open spec fn first_there(is_file: Seq<bool>) -> Option<int>
    decreases is_file.len(),
{
    if is_file.len() == 0 {
        None
    } else if is_file[0] {
        Some(0)
    } else {
        match first_there(is_file.skip(1)) {
            Some(i) => Some(i + 1),
            None => None,
        }
    }
}

proof fn lemma_first_there(is_file: Seq<bool>)
    ensures
        match first_there(is_file) {
            Some(i) => 0 <= i < is_file.len() && is_file[i] && forall|j: int|
                0 <= j < i ==> !is_file[j],
            None => forall|j: int| 0 <= j < is_file.len() ==> !is_file[j],
        },
    decreases is_file.len(),
{
    if is_file.len() > 0 && !is_file[0] {
        let rest = is_file.skip(1);
        lemma_first_there(rest);
        assert(forall|j: int| 1 <= j < is_file.len() ==> is_file[j] == rest[j - 1]);
    }
}

/// Where the settings come from, when `named_is_file` says whether the path
/// that was named is a file, and `defaults` says so of each default file. A
/// path that was named is used or nothing is.
pub open spec fn source_of(
    asked: EnvFileView,
    named_is_file: bool,
    defaults: Seq<bool>,
) -> EnvSourceView {
    match asked {
        EnvFileView::Skip => EnvSourceView::Nothing,
        EnvFileView::Explicit(path) => if named_is_file {
            EnvSourceView::Named(path)
        } else {
            EnvSourceView::Missing(path)
        },
        EnvFileView::Search => match first_there(defaults) {
            Some(i) => EnvSourceView::Default(i),
            None => EnvSourceView::NoDefault,
        },
    }
}

/// Where the settings come from.
pub fn env_source(asked: EnvFile, named_is_file: bool, defaults: &[bool]) -> (source: EnvSource)
    ensures
        source@ == source_of(asked@, named_is_file, defaults@),
        source matches EnvSource::Default(i) ==> i < defaults@.len() && defaults@[i as int],
{
    match asked {
        EnvFile::Skip => EnvSource::Nothing,
        EnvFile::Explicit(path) => {
            if named_is_file {
                EnvSource::Named(path)
            } else {
                EnvSource::Missing(path)
            }
        },
        EnvFile::Search => {
            proof {
                lemma_first_there(defaults@);
            }
            match find_default(defaults) {
                Some(i) => EnvSource::Default(i),
                None => EnvSource::NoDefault,
            }
        },
    }
}

/// What the path of a default file is relative to.
#[derive(Clone, Copy, Debug, PartialEq, Eq, Structural)]
pub enum Base {
    /// Nothing: it is absolute.
    Root,
    /// The working directory.
    WorkingDir,
    /// The directory of the executable.
    ExeDir,
    /// The directory above that.
    AboveExeDir,
}

/// A default file.
pub struct Candidate {
    pub base: Base,
    pub path: &'static str,
}

/// The default files, in the order in which they are looked for. Those next to
/// the executable are there only if its directory, or the one above, is known.
pub open spec fn candidates_spec(exe_dir: bool, above: bool) -> Seq<(Base, Seq<char>)> {
    let live = seq![
        (Base::Root, "/data/orbit/config/orbit.env"@),
        (Base::Root, "/data/orbit/config/orbit-rs.env"@),
        (Base::WorkingDir, "config/orbit.env"@),
        (Base::WorkingDir, "config/orbit-rs.env"@),
    ];
    let exe = if exe_dir {
        seq![(Base::ExeDir, "config/orbit.env"@), (Base::ExeDir, "config/orbit-rs.env"@)]
    } else {
        Seq::empty()
    };
    let up = if exe_dir && above {
        seq![(Base::AboveExeDir, "config/orbit.env"@), (Base::AboveExeDir, "config/orbit-rs.env"@)]
    } else {
        Seq::empty()
    };
    let etc = seq![
        (Base::Root, "/etc/orbit-rs/orbit.env"@),
        (Base::Root, "/etc/orbit-rs/orbit-rs.env"@),
    ];
    live + exe + up + etc
}

/// What each candidate says.
pub open spec fn candidate_views(v: Seq<Candidate>) -> Seq<(Base, Seq<char>)> {
    v.map_values(|c: Candidate| (c.base, c.path@))
}

/// Append the two files of one directory.
fn push_pair(v: &mut Vec<Candidate>, base: Base, first: &'static str, second: &'static str)
    ensures
        candidate_views(final(v)@) == candidate_views(old(v)@) + seq![
            (base, first@),
            (base, second@),
        ],
{
    v.push(Candidate { base, path: first });
    v.push(Candidate { base, path: second });
    assert(candidate_views(v@) =~= candidate_views(old(v)@) + seq![(base, first@), (base, second@)]);
}

/// The default files, in the order in which they are looked for.
pub fn candidates(exe_dir: bool, above: bool) -> (v: Vec<Candidate>)
    ensures
        candidate_views(v@) == candidates_spec(exe_dir, above),
{
    let mut v: Vec<Candidate> = Vec::new();
    push_pair(
        &mut v,
        Base::Root,
        "/data/orbit/config/orbit.env",
        "/data/orbit/config/orbit-rs.env",
    );
    push_pair(&mut v, Base::WorkingDir, "config/orbit.env", "config/orbit-rs.env");
    if exe_dir {
        push_pair(&mut v, Base::ExeDir, "config/orbit.env", "config/orbit-rs.env");
        if above {
            push_pair(&mut v, Base::AboveExeDir, "config/orbit.env", "config/orbit-rs.env");
        }
    }
    push_pair(&mut v, Base::Root, "/etc/orbit-rs/orbit.env", "/etc/orbit-rs/orbit-rs.env");
    assert(candidate_views(v@) =~= candidates_spec(exe_dir, above));
    v
}

/// The first candidate that is there: `is_file` says so of each.
pub fn find_default(is_file: &[bool]) -> (found: Option<usize>)
    ensures
        match found {
            Some(i) => i < is_file@.len() && is_file@[i as int] && forall|j: int|
                0 <= j < i ==> !is_file@[j],
            None => forall|j: int| 0 <= j < is_file@.len() ==> !is_file@[j],
        },
{
    let mut i: usize = 0;
    while i < is_file.len()
        invariant
            i <= is_file@.len(),
            forall|j: int| 0 <= j < i ==> !is_file@[j],
        decreases is_file@.len() - i,
    {
        if is_file[i] {
            return Some(i);
        }
        i = i + 1;
    }
    None
}

// --- what is in it ------------------------------------------------------------

/// An ASCII letter.
pub open spec fn letter(c: char) -> bool {
    'a' <= c <= 'z' || 'A' <= c <= 'Z'
}

/// A character that a key may start with.
pub open spec fn key_start(c: char) -> bool {
    c == '_' || letter(c)
}

/// A character that a key may hold.
pub open spec fn key_char(c: char) -> bool {
    key_start(c) || '0' <= c <= '9'
}

/// A name that the environment takes: a letter or underscore, then letters,
/// digits and underscores.
pub open spec fn is_key(k: Seq<char>) -> bool {
    &&& k.len() > 0
    &&& key_start(k[0])
    &&& forall|i: int| 0 <= i < k.len() ==> key_char(#[trigger] k[i])
}

/// Whether `k` is a name that the environment takes.
pub fn valid_key(k: &str) -> (valid: bool)
    ensures
        valid == is_key(k@),
{
    let v: Vec<char> = chars_of(k);
    if v.len() == 0 {
        return false;
    }
    let c0: char = v[0];
    if !(c0 == '_' || ('a' <= c0 && c0 <= 'z') || ('A' <= c0 && c0 <= 'Z')) {
        return false;
    }
    let mut i: usize = 0;
    while i < v.len()
        invariant
            v@ == k@,
            i <= v@.len(),
            forall|j: int| 0 <= j < i ==> key_char(#[trigger] v@[j]),
        decreases v@.len() - i,
    {
        let c: char = v[i];
        if !(c == '_' || ('a' <= c && c <= 'z') || ('A' <= c && c <= 'Z') || ('0' <= c && c
            <= '9')) {
            assert(!key_char(k@[i as int]));
            return false;
        }
        i = i + 1;
    }
    true
}

/// `s` is quoted with `q`.
pub open spec fn quoted(s: Seq<char>, q: char) -> bool {
    s.len() >= 2 && s[0] == q && s.last() == q
}

/// A comment starts at `i`: a `#` after a space or a tab.
pub open spec fn comment_at(s: Seq<char>, i: int) -> bool {
    1 <= i < s.len() && s[i] == '#' && (s[i - 1] == ' ' || s[i - 1] == '\t')
}

/// Where the first comment at or after `i` starts; the end, if there is none.
pub open spec fn comment_from(s: Seq<char>, i: int) -> int
    decreases s.len() - i,
{
    if i >= s.len() {
        s.len() as int
    } else if comment_at(s, i) {
        i
    } else {
        comment_from(s, i + 1)
    }
}

/// The value that the text after the `=` stands for: trimmed; without one
/// layer of matching quotes, or else without a trailing comment.
pub open spec fn value_of(s: Seq<char>) -> Seq<char> {
    let t = trim_spec(s);
    if quoted(t, '"') || quoted(t, '\'') {
        t.subrange(1, t.len() - 1)
    } else {
        trim_end_spec(t.take(comment_from(t, 1)))
    }
}

/// Trim, strip one layer of matching quotes, or drop an unquoted trailing
/// ` #...` / `\t#...` comment.
pub fn parse_value(s: &str) -> (value: String)
    ensures
        value@ == value_of(s@),
{
    let t: &str = trim(s);
    let v: Vec<char> = chars_of(t);
    let n: usize = v.len();
    if n >= 2 && ((v[0] == '"' && v[n - 1] == '"') || (v[0] == '\'' && v[n - 1] == '\'')) {
        let inner: &str = take_chars(skip_chars(t, 1), n - 2);
        assert(inner@ =~= t@.subrange(1, t@.len() - 1));
        return inner.to_owned();
    }
    let mut cut: usize = if n >= 1 { 1 } else { 0 };
    while cut < n && !(v[cut] == '#' && (v[cut - 1] == ' ' || v[cut - 1] == '\t'))
        invariant
            v@ == t@,
            n == v@.len(),
            cut <= n,
            n >= 1 ==> cut >= 1,
            comment_from(t@, 1) == comment_from(t@, cut as int),
        decreases n - cut,
    {
        cut = cut + 1;
    }
    trim_end(take_chars(t, cut)).to_owned()
}

/// `s` without the carriage returns at its end.
pub open spec fn without_cr(s: Seq<char>) -> Seq<char>
    decreases s.len(),
{
    if s.len() > 0 && s.last() == '\r' {
        without_cr(s.drop_last())
    } else {
        s
    }
}

/// `s` without the carriage returns at its end.
fn trim_cr<'a>(s: &'a str) -> (r: &'a str)
    ensures
        r@ == without_cr(s@),
{
    let v: Vec<char> = chars_of(s);
    let mut n: usize = v.len();
    assert(s@.take(s@.len() as int) =~= s@);
    while n > 0 && v[n - 1] == '\r'
        invariant
            v@ == s@,
            n <= v@.len(),
            without_cr(s@) == without_cr(s@.take(n as int)),
        decreases n,
    {
        assert(s@.take(n as int).drop_last() =~= s@.take(n - 1));
        n = n - 1;
    }
    take_chars(s, n)
}

/// What one line of the file says.
pub enum EnvLine {
    /// Nothing: it is empty or a comment.
    Blank,
    /// Not an assignment.
    NoEquals,
    /// An assignment to something that is not a key.
    BadKey(String),
    /// An assignment.
    Assign { key: String, value: String },
}

/// What one line of the file says, as plain values.
#[verifier::ext_equal]
pub enum EnvLineView {
    Blank,
    NoEquals,
    BadKey(Seq<char>),
    Assign { key: Seq<char>, value: Seq<char> },
}

impl View for EnvLine {
    type V = EnvLineView;

    open spec fn view(&self) -> EnvLineView {
        match self {
            EnvLine::Blank => EnvLineView::Blank,
            EnvLine::NoEquals => EnvLineView::NoEquals,
            EnvLine::BadKey(key) => EnvLineView::BadKey(key@),
            EnvLine::Assign { key, value } => EnvLineView::Assign { key: key@, value: value@ },
        }
    }
}

/// A line without the `export ` in front.
pub open spec fn without_export(s: Seq<char>) -> Seq<char> {
    if "export "@.is_prefix_of(s) {
        s.skip("export "@.len() as int)
    } else {
        s
    }
}

/// The assignment in a line: what stands before the first `=`, trimmed, and
/// the value after it.
pub open spec fn assignment(s: Seq<char>) -> EnvLineView {
    let eq = before(s, '=');
    if eq >= s.len() {
        EnvLineView::NoEquals
    } else {
        let key = trim_spec(s.take(eq));
        if is_key(key) {
            EnvLineView::Assign { key, value: value_of(s.skip(eq + 1)) }
        } else {
            EnvLineView::BadKey(key)
        }
    }
}

/// What a line says.
pub open spec fn line_says(raw: Seq<char>) -> EnvLineView {
    let line = trim_start_spec(without_cr(raw));
    if line.len() == 0 || line[0] == '#' {
        EnvLineView::Blank
    } else {
        assignment(without_export(line))
    }
}

/// What a line says.
pub fn parse_line(raw: &str) -> (line: EnvLine)
    ensures
        line@ == line_says(raw@),
{
    let line: &str = trim_start(trim_cr(raw));
    if line.is_empty() {
        return EnvLine::Blank;
    }
    let v: Vec<char> = chars_of(line);
    if v[0] == '#' {
        return EnvLine::Blank;
    }
    let body: &str = if starts_with(line, "export ") {
        proof {
            reveal_strlit("export ");
        }
        skip_chars(line, 7)
    } else {
        line
    };
    let eq: usize = count_before(body, '=');
    let n: usize = chars_of(body).len();
    if eq >= n {
        return EnvLine::NoEquals;
    }
    let key: &str = trim(take_chars(body, eq));
    if !valid_key(key) {
        return EnvLine::BadKey(key.to_owned());
    }
    let value: String = parse_value(skip_chars(body, eq + 1));
    EnvLine::Assign { key: key.to_owned(), value }
}

/// The lines of a text: what newlines end. A newline at the very end starts no
/// further line.
pub open spec fn lines(text: Seq<char>) -> Seq<Seq<char>>
    decreases text.len(),
{
    if text.len() == 0 {
        Seq::empty()
    } else {
        let n = before(text, '\n');
        proof {
            lemma_before(text, '\n');
        }
        if n >= text.len() {
            seq![text]
        } else {
            seq![text.take(n)] + lines(text.skip(n + 1))
        }
    }
}

/// What each line says.
pub open spec fn line_views(v: Seq<EnvLine>) -> Seq<EnvLineView> {
    v.map_values(|l: EnvLine| l@)
}

/// What the lines of a text say.
pub open spec fn file_says(text: Seq<char>) -> Seq<EnvLineView> {
    lines(text).map_values(|l: Seq<char>| line_says(l))
}

/// What each line of the file says, in order; the first is line 1.
pub fn parse_file(text: &str) -> (out: Vec<EnvLine>)
    ensures
        line_views(out@) == file_says(text@),
{
    let mut out: Vec<EnvLine> = Vec::new();
    let mut rest: &str = text;
    assert(line_views(out@) =~= Seq::empty());
    assert(file_says(text@) =~= line_views(out@) + file_says(rest@));
    while !rest.is_empty()
        invariant
            file_says(text@) == line_views(out@) + file_says(rest@),
        decreases rest@.len(),
    {
        let ghost was = out@;
        let ghost now = rest@;
        let n: usize = count_before(rest, '\n');
        let len: usize = chars_of(rest).len();
        let line: EnvLine = parse_line(take_chars(rest, n));
        proof {
            lemma_before(now, '\n');
            assert(n == len ==> now.take(n as int) =~= now);
        }
        out.push(line);
        rest = if n < len { skip_chars(rest, n + 1) } else { skip_chars(rest, n) };
        proof {
            assert(line_views(out@) =~= line_views(was).push(line@));
            assert(file_says(now) =~= seq![line@] + file_says(rest@));
            assert(line_views(was) + (seq![line@] + file_says(rest@)) =~= line_views(out@)
                + file_says(rest@));
        }
    }
    assert(line_views(out@) + file_says(rest@) =~= line_views(out@));
    out
}

// --- what it does -------------------------------------------------------------

/// A text that the environment can hold.
pub open spec fn no_nul(s: Seq<char>) -> bool {
    forall|i: int| 0 <= i < s.len() ==> #[trigger] s[i] != '\0'
}

/// Whether an assignment is made: the variable is not set yet, and neither
/// name nor value holds a NUL.
pub open spec fn sets(present: bool, key: Seq<char>, value: Seq<char>) -> bool {
    !present && no_nul(key) && no_nul(value)
}

/// Whether `s` is free of NUL characters.
fn free_of_nul(s: &str) -> (yes: bool)
    ensures
        yes == no_nul(s@),
{
    let v: Vec<char> = chars_of(s);
    let mut i: usize = 0;
    while i < v.len()
        invariant
            v@ == s@,
            i <= v@.len(),
            forall|j: int| 0 <= j < i ==> #[trigger] v@[j] != '\0',
        decreases v@.len() - i,
    {
        if v[i] == '\0' {
            assert(s@[i as int] == '\0');
            return false;
        }
        i = i + 1;
    }
    true
}

/// Whether to set a variable: only when it is absent from the environment.
/// `present` says whether it is there now. A line with an embedded NUL is
/// ignored.
pub fn set_if_absent(present: bool, key: &str, value: &str) -> (set: bool)
    ensures
        set == sets(present, key@, value@),
{
    !present && free_of_nul(key) && free_of_nul(value)
}

/// A variable to set.
pub struct Setting {
    pub key: String,
    pub value: String,
}

/// A variable to set, as plain values.
#[verifier::ext_equal]
pub struct SettingView {
    pub key: Seq<char>,
    pub value: Seq<char>,
}

impl View for Setting {
    type V = SettingView;

    open spec fn view(&self) -> SettingView {
        SettingView { key: self.key@, value: self.value@ }
    }
}

/// The variables to set, as plain values.
pub open spec fn setting_views(v: Seq<Setting>) -> Seq<SettingView> {
    v.map_values(|s: Setting| s@)
}

/// One of the settings is for `key`.
pub open spec fn set_by(settings: Seq<SettingView>, key: Seq<char>) -> bool {
    exists|i: int| 0 <= i < settings.len() && (#[trigger] settings[i]).key == key
}

/// The variables that the lines set, in order, when `present` are there
/// already.
pub open spec fn settings_of(present: Seq<Seq<char>>, says: Seq<EnvLineView>) -> Seq<SettingView>
    decreases says.len(),
{
    if says.len() == 0 {
        Seq::empty()
    } else {
        let earlier = settings_of(present, says.drop_last());
        match says.last() {
            EnvLineView::Assign { key, value } => if sets(
                present.contains(key) || set_by(earlier, key),
                key,
                value,
            ) {
                earlier.push(SettingView { key, value })
            } else {
                earlier
            },
            _ => earlier,
        }
    }
}

/// Whether `key` is one of the names.
fn is_among(names: &[String], key: &str) -> (yes: bool)
    ensures
        yes == views(names@).contains(key@),
{
    let mut i: usize = 0;
    while i < names.len()
        invariant
            i <= names@.len(),
            forall|j: int| 0 <= j < i ==> (#[trigger] names@[j])@ != key@,
        decreases names@.len() - i,
    {
        if same(names[i].as_str(), key) {
            assert(views(names@)[i as int] == key@);
            return true;
        }
        i = i + 1;
    }
    assert forall|j: int| 0 <= j < views(names@).len() implies views(names@)[j] != key@ by {
        assert(views(names@)[j] == names@[j]@);
    }
    false
}

/// Whether one of the settings is for `key`.
fn is_set(settings: &Vec<Setting>, key: &str) -> (yes: bool)
    ensures
        yes == set_by(setting_views(settings@), key@),
{
    let mut i: usize = 0;
    while i < settings.len()
        invariant
            i <= settings@.len(),
            forall|j: int| 0 <= j < i ==> (#[trigger] settings@[j]).key@ != key@,
        decreases settings@.len() - i,
    {
        if same(settings[i].key.as_str(), key) {
            assert(setting_views(settings@)[i as int].key == key@);
            return true;
        }
        i = i + 1;
    }
    assert forall|j: int| 0 <= j < setting_views(settings@).len() implies (
    #[trigger] setting_views(settings@)[j]).key != key@ by {
        assert(setting_views(settings@)[j].key == settings@[j].key@);
    }
    false
}

/// The variables that a file sets, in order.
fn settings_in(text: &str, present: &[String]) -> (settings: Vec<Setting>)
    ensures
        setting_views(settings@) == settings_of(views(present@), file_says(text@)),
{
    let lines: Vec<EnvLine> = parse_file(text);
    let ghost says = line_views(lines@);
    let ghost names = views(present@);
    let mut settings: Vec<Setting> = Vec::new();
    let mut i: usize = 0;
    assert(setting_views(settings@) =~= settings_of(names, says.take(0)));
    while i < lines.len()
        invariant
            says == line_views(lines@),
            names == views(present@),
            i <= lines@.len(),
            setting_views(settings@) == settings_of(names, says.take(i as int)),
        decreases lines@.len() - i,
    {
        let ghost earlier = setting_views(settings@);
        proof {
            assert(says.take(i + 1).drop_last() =~= says.take(i as int));
            assert(says.take(i + 1).last() == lines@[i as int]@);
        }
        if let EnvLine::Assign { key, value } = &lines[i] {
            let there: bool = is_among(present, key.as_str()) || is_set(&settings, key.as_str());
            if set_if_absent(there, key.as_str(), value.as_str()) {
                settings.push(Setting { key: key.clone(), value: value.clone() });
                assert(setting_views(settings@) =~= earlier.push(
                    SettingView { key: key@, value: value@ },
                ));
            }
        }
        i = i + 1;
    }
    assert(says.take(lines@.len() as int) =~= says);
    settings
}

/// What is loaded: what the file says, if one is read and can be; else nothing.
pub open spec fn loaded(source: EnvSourceView, text: Option<Seq<char>>) -> Seq<EnvLineView> {
    match text {
        Some(t) => if source.reads() {
            file_says(t)
        } else {
            Seq::empty()
        },
        None => Seq::empty(),
    }
}

/// The variables to set, in order. `text` is what the file holds; `None` if it
/// cannot be read. `present` are the names of the variables that are in the
/// environment already: the file never overwrites them.
pub fn load(source: &EnvSource, text: Option<&str>, present: &[String]) -> (settings: Vec<Setting>)
    ensures
        setting_views(settings@) == settings_of(
            views(present@),
            loaded(
                source@,
                match text {
                    Some(t) => Some(t@),
                    None => None,
                },
            ),
        ),
{
    let reads: bool = match source {
        EnvSource::Named(_) => true,
        EnvSource::Default(_) => true,
        _ => false,
    };
    if reads {
        if let Some(t) = text {
            return settings_in(t, present);
        }
    }
    let none: Vec<Setting> = Vec::new();
    assert(setting_views(none@) =~= Seq::empty());
    none
}

/// If the variable is set, the default files are never used; and if it is
/// empty, `none` or names something that is not a file, no file is read and the
/// environment stays as it is.
pub proof fn law_named_file_or_nothing(
    env: Env,
    var: Seq<char>,
    named_is_file: bool,
    defaults: Seq<bool>,
    text: Option<Seq<char>>,
)
    ensures
        ({
            let source = source_of(asked_for(Some(var)), named_is_file, defaults);
            &&& !(source is Default)
            &&& var.len() == 0 || var == "none"@ || !named_is_file ==> !source.reads() && env_after(
                env,
                loaded(source, text),
            ) == env
        }),
{
}

/// An environment: what each variable holds.
pub type Env = Map<Seq<char>, Seq<char>>;

/// The environment after one line.
pub open spec fn env_after_line(env: Env, line: EnvLineView) -> Env {
    match line {
        EnvLineView::Assign { key, value } => if sets(env.contains_key(key), key, value) {
            env.insert(key, value)
        } else {
            env
        },
        _ => env,
    }
}

/// The environment after some lines.
pub open spec fn env_after(env: Env, says: Seq<EnvLineView>) -> Env
    decreases says.len(),
{
    if says.len() == 0 {
        env
    } else {
        env_after_line(env_after(env, says.drop_last()), says.last())
    }
}

/// An environment with some variables set.
pub open spec fn with_settings(env: Env, settings: Seq<SettingView>) -> Env
    decreases settings.len(),
{
    if settings.len() == 0 {
        env
    } else {
        with_settings(env, settings.drop_last()).insert(
            settings.last().key,
            settings.last().value,
        )
    }
}

proof fn lemma_with_settings(env: Env, settings: Seq<SettingView>, k: Seq<char>)
    ensures
        with_settings(env, settings).contains_key(k) <==> env.contains_key(k) || set_by(
            settings,
            k,
        ),
    decreases settings.len(),
{
    if settings.len() > 0 {
        let init = settings.drop_last();
        lemma_with_settings(env, init, k);
        if set_by(init, k) {
            let i = choose|i: int| 0 <= i < init.len() && (#[trigger] init[i]).key == k;
            assert(settings[i].key == k);
        }
        if set_by(settings, k) {
            let i = choose|i: int| 0 <= i < settings.len() && (#[trigger] settings[i]).key == k;
            if i < init.len() {
                assert(init[i].key == k);
            }
        }
        if settings.last().key == k {
            assert(settings[settings.len() - 1].key == k);
        }
    }
}

/// Making the settings that a file asks for leaves the environment as its lines
/// do, taken one after the other.
pub proof fn law_settings_do_what_the_lines_say(
    env: Env,
    present: Seq<Seq<char>>,
    says: Seq<EnvLineView>,
)
    requires
        forall|k: Seq<char>| #[trigger] env.contains_key(k) <==> present.contains(k),
    ensures
        with_settings(env, settings_of(present, says)) == env_after(env, says),
    decreases says.len(),
{
    if says.len() > 0 {
        let init = says.drop_last();
        law_settings_do_what_the_lines_say(env, present, init);
        let earlier = settings_of(present, init);
        if let EnvLineView::Assign { key, value } = says.last() {
            lemma_with_settings(env, earlier, key);
            let more = earlier.push(SettingView { key, value });
            assert(more.drop_last() =~= earlier);
        }
    }
}

/// Variables that are already set are never overwritten.
pub proof fn law_never_overwrites(env: Env, says: Seq<EnvLineView>)
    ensures
        forall|k: Seq<char>| #[trigger]
            env.contains_key(k) ==> env_after(env, says).contains_key(k) && env_after(env, says)[k]
                == env[k],
    decreases says.len(),
{
    if says.len() > 0 {
        law_never_overwrites(env, says.drop_last());
    }
}

/// Of several assignments to one variable the first that can be made wins, and
/// nothing else reaches the environment: a variable that the file added holds
/// the value of a line that assigns it, and no line before that one could have
/// set it.
pub proof fn law_first_assignment_wins(env: Env, says: Seq<EnvLineView>, k: Seq<char>)
    requires
        !env.contains_key(k),
    ensures
        env_after(env, says).contains_key(k) ==> exists|i: int|
            {
                &&& 0 <= i < says.len()
                &&& #[trigger] says[i] == (EnvLineView::Assign {
                    key: k,
                    value: env_after(env, says)[k],
                })
                &&& forall|j: int|
                    0 <= j < i ==> !assigns(#[trigger] says[j], k)
            },
        !env_after(env, says).contains_key(k) ==> forall|j: int|
            0 <= j < says.len() ==> !assigns(#[trigger] says[j], k),
    decreases says.len(),
{
    if says.len() > 0 {
        let init = says.drop_last();
        law_first_assignment_wins(env, init, k);
        let mid = env_after(env, init);
        let end = env_after(env, says);
        assert(forall|j: int| 0 <= j < init.len() ==> init[j] == says[j]);
        assert(says[says.len() - 1] == says.last());
        if mid.contains_key(k) {
            let i = choose|i: int|
                {
                    &&& 0 <= i < init.len()
                    &&& #[trigger] init[i] == (EnvLineView::Assign { key: k, value: mid[k] })
                    &&& forall|j: int| 0 <= j < i ==> !assigns(#[trigger] init[j], k)
                };
            assert(says[i] == (EnvLineView::Assign { key: k, value: end[k] }));
            assert(forall|j: int| 0 <= j < i ==> !assigns(#[trigger] says[j], k)) by {
                assert forall|j: int| 0 <= j < i implies !assigns(#[trigger] says[j], k) by {
                    assert(!assigns(init[j], k));
                }
            }
        } else {
            assert forall|j: int| 0 <= j < init.len() implies !assigns(#[trigger] says[j], k) by {
                assert(!assigns(init[j], k));
            }
        }
    }
}

/// A line that assigns `k` something that the environment can hold.
pub open spec fn assigns(line: EnvLineView, k: Seq<char>) -> bool {
    line matches EnvLineView::Assign { key, value } && key == k && no_nul(key) && no_nul(value)
}

/// A key that the file may set holds no `=` and no NUL.
pub proof fn law_keys_are_clean(k: Seq<char>)
    requires
        is_key(k),
    ensures
        no_nul(k),
        !k.contains('='),
{
}

/// Quotes keep a value exactly as it is, white space and comment signs
/// and all: the value of a quoted text is what stands between the quotes.
pub proof fn law_quotes_keep_the_value(v: Seq<char>, q: char)
    requires
        q == '"' || q == '\'',
    ensures
        value_of(seq![q] + v + seq![q]) == v,
{
    let s = seq![q] + v + seq![q];
    assert(!white(q));
    assert(s[0] == q && s.last() == q);
    assert(trim_start_spec(s) == s);
    assert(trim_end_spec(s) == s);
    assert(s.subrange(1, s.len() - 1) =~= v);
}

/// The first `c` in a text is where it is, with none before it.
proof fn lemma_before_is(s: Seq<char>, c: char, k: int)
    requires
        0 <= k < s.len(),
        s[k] == c,
        forall|i: int| 0 <= i < k ==> s[i] != c,
    ensures
        before(s, c) == k,
{
    lemma_before(s, c);
    let n = before(s, c);
    if n < k {
        assert(s[n] == c);
    }
}

/// A line that assigns a quoted text to a key says just that, whatever the text
/// holds.
pub proof fn law_quoted_assignment(key: Seq<char>, v: Seq<char>, q: char)
    requires
        is_key(key),
        q == '"' || q == '\'',
    ensures
        line_says(key + seq!['='] + (seq![q] + v + seq![q])) == (EnvLineView::Assign {
            key,
            value: v,
        }),
{
    let value = seq![q] + v + seq![q];
    let raw = key + seq!['='] + value;
    let n = key.len() as int;
    assert(raw.last() == q);
    assert(raw[0] == key[0] && key_char(key[0]));
    assert(!white(key[0]));
    assert(trim_start_spec(raw) == raw);
    assert forall|i: int| 0 <= i < n implies raw[i] != '=' && raw[i] != ' ' by {
        assert(key_char(key[i]));
    }
    assert(raw[n] == '=');
    lemma_before_is(raw, '=', n);
    assert(without_export(raw) == raw) by {
        reveal_strlit("export ");
        if "export "@.is_prefix_of(raw) {
            let start = raw.subrange(0, 7);
            assert(start == "export "@);
            assert(raw[6] == start[6]);
            if n < 6 {
                assert(start[n] == raw[n]);
            }
            assert(false);
        }
    }
    assert(raw.take(n) =~= key);
    assert(key_char(key.last()) && !white(key.last()));
    assert(trim_spec(key) == key);
    assert(raw.skip(n + 1) =~= value);
    law_quotes_keep_the_value(v, q);
}

/// A file can be read in two parts, cut after any line.
pub proof fn law_lines_are_independent(a: Seq<char>, b: Seq<char>)
    ensures
        file_says(a + seq!['\n'] + b) == file_says(a + seq!['\n']) + file_says(b),
    decreases a.len(),
{
    let first = a + seq!['\n'];
    let all = first + b;
    lemma_before(a, '\n');
    let n = before(a, '\n');
    lemma_before_is(first, '\n', n);
    lemma_before_is(all, '\n', n);
    assert(all.take(n) =~= first.take(n));
    if n < a.len() {
        let rest = a.skip(n + 1);
        law_lines_are_independent(rest, b);
        assert(first.skip(n + 1) =~= rest + seq!['\n']);
        assert(all.skip(n + 1) =~= rest + seq!['\n'] + b);
    } else {
        assert(first.skip(n + 1) =~= Seq::empty());
        assert(all.skip(n + 1) =~= b);
    }
    let head = seq![line_says(all.take(n))];
    assert(file_says(all) =~= head + file_says(all.skip(n + 1)));
    assert(file_says(first) =~= head + file_says(first.skip(n + 1)));
}

// --- what a line can say ------------------------------------------------------

proof fn lemma_comment_from(s: Seq<char>, i: int)
    requires
        0 <= i <= s.len(),
    ensures
        i <= comment_from(s, i) <= s.len(),
        comment_from(s, i) < s.len() ==> comment_at(s, comment_from(s, i)),
        forall|k: int| i <= k < comment_from(s, i) ==> !comment_at(s, k),
    decreases s.len() - i,
{
    if i < s.len() && !comment_at(s, i) {
        lemma_comment_from(s, i + 1);
    }
}

/// A value without quotes around it is the text up to the first `#` after a
/// space or a tab, trimmed, and holds no such `#`.
pub proof fn law_unquoted_value(s: Seq<char>) -> (cut: int)
    requires
        ({
            let t = trim_spec(s);
            t.len() >= 2 && t[0] == t.last() ==> t[0] != '"' && t[0] != '\''
        }),
    ensures
        ({
            let t = trim_spec(s);
            let v = value_of(s);
            &&& 0 <= cut <= t.len()
            &&& v == trim_spec(t.take(cut))
            &&& cut == t.len() || 0 < cut && t[cut] == '#' && (t[cut - 1] == ' ' || t[cut - 1]
                == '\t')
            &&& v.len() <= cut && v == t.take(v.len() as int)
            &&& forall|i: int|
                0 < i < v.len() && #[trigger] v[i] == '#' ==> v[i - 1] != ' ' && v[i - 1] != '\t'
        }),
{
    let t = trim_spec(s);
    let (i, j) = law_trim(s);
    if t.len() == 0 {
        assert(t.take(0) =~= t);
        assert(trim_start_spec(t) == t);
        0
    } else {
        assert(t[0] == s[i]);
        assert(!white(t[0]));
        lemma_comment_from(t, 1);
        let cut = comment_from(t, 1);
        let u = t.take(cut);
        assert(u[0] == t[0]);
        assert(trim_start_spec(u) == u);
        let n = lemma_trim_end(u);
        let v = value_of(s);
        assert(v == u.take(n));
        assert(u.take(n) =~= t.take(n));
        assert forall|k: int| 0 < k < v.len() && #[trigger] v[k] == '#' implies v[k - 1] != ' '
            && v[k - 1] != '\t' by {
            assert(!comment_at(t, k));
        }
        cut
    }
}

/// A text without white space at its ends, without quotes around it and without
/// a `#` after a space or a tab is its own value, whatever white space is
/// around it.
pub proof fn law_plain_value(a: Seq<char>, v: Seq<char>, b: Seq<char>)
    requires
        forall|k: int| 0 <= k < a.len() ==> white(#[trigger] a[k]),
        forall|k: int| 0 <= k < b.len() ==> white(#[trigger] b[k]),
        v.len() > 0 ==> !white(v[0]) && !white(v.last()),
        v.len() >= 2 && v[0] == v.last() ==> v[0] != '"' && v[0] != '\'',
        forall|i: int|
            0 < i < v.len() && #[trigger] v[i] == '#' ==> v[i - 1] != ' ' && v[i - 1] != '\t',
    ensures
        value_of(a + v + b) == v,
{
    let s = a + v + b;
    law_trim_gives_back(a, v, b);
    let cut = law_unquoted_value(s);
    if cut < v.len() {
        assert(v[cut] == '#');
    }
    assert(v.take(cut) =~= v);
    assert(a.take(0) + v + a.take(0) =~= v);
    law_trim_gives_back(a.take(0), v, a.take(0));
}

/// A comment is dropped with the space or tab before it, whatever it says.
pub proof fn law_comment_is_dropped(v: Seq<char>, blank: char, t: Seq<char>)
    requires
        blank == ' ' || blank == '\t',
        v.len() > 0,
        !white(v[0]) && !white(v.last()),
        v[0] == '"' || v[0] == '\'' ==> !t.contains(v[0]),
        forall|i: int|
            0 < i < v.len() && #[trigger] v[i] == '#' ==> v[i - 1] != ' ' && v[i - 1] != '\t',
    ensures
        value_of(v + seq![blank, '#'] + t) == v,
{
    let s = v + seq![blank, '#'] + t;
    let n = v.len() as int;
    assert(s[0] == v[0]);
    assert(s[n] == blank && s[n + 1] == '#');
    let (i, j) = law_trim(s);
    assert(i == 0 && j > n + 1);
    let u = trim_spec(s);
    assert(u =~= s.take(j));
    if u[0] == u.last() && (u[0] == '"' || u[0] == '\'') {
        assert(u.last() == s[j - 1]);
        if j - 1 > n + 1 {
            assert(t[j - 1 - (n + 2)] == u[0]);
        }
        assert(false);
    }
    lemma_comment_from(u, 1);
    let cut = comment_from(u, 1);
    assert(comment_at(u, n + 1));
    assert(cut <= n + 1);
    if cut < n {
        assert(v[cut] == '#' && (v[cut - 1] == ' ' || v[cut - 1] == '\t'));
    }
    assert(cut == n + 1);
    let w = u.take(cut);
    assert(w =~= v.push(blank));
    assert(w.drop_last() =~= v);
    assert(trim_end_spec(v) == v);
}

/// A key is made of letters, digits and underscores of the ASCII set, and does
/// not start with a digit; every such text is a key.
pub proof fn law_what_a_key_is(k: Seq<char>)
    ensures
        is_key(k) <==> {
            &&& k.len() > 0
            &&& !(48 <= k[0] as int <= 57)
            &&& forall|i: int|
                #![trigger k[i]]
                0 <= i < k.len() ==> {
                    let u = k[i] as int;
                    48 <= u <= 57 || 65 <= u <= 90 || u == 95 || 97 <= u <= 122
                }
        },
{
    if k.len() > 0 {
        if is_key(k) {
            assert forall|i: int| 0 <= i < k.len() implies {
                let u = (#[trigger] k[i]) as int;
                48 <= u <= 57 || 65 <= u <= 90 || u == 95 || 97 <= u <= 122
            } by {
                assert(key_char(k[i]));
            }
        } else if key_start(k[0]) {
            let i = choose|i: int| 0 <= i < k.len() && !key_char(#[trigger] k[i]);
            assert(!key_char(k[i]));
        }
    }
}

/// An assignment is made exactly if the variable is absent and neither name nor
/// value holds a NUL anywhere.
pub proof fn law_what_is_set(present: bool, key: Seq<char>, value: Seq<char>)
    ensures
        sets(present, key, value) <==> !present && !key.contains('\0') && !value.contains('\0'),
{
    if no_nul(key) {
        assert(!key.contains('\0'));
    } else {
        let i = choose|i: int| 0 <= i < key.len() && key[i] == '\0';
        assert(key.contains('\0'));
    }
    if no_nul(value) {
        assert(!value.contains('\0'));
    } else {
        let i = choose|i: int| 0 <= i < value.len() && value[i] == '\0';
        assert(value.contains('\0'));
    }
}

/// Some lines, each followed by a newline.
pub open spec fn text_of(v: Seq<Seq<char>>) -> Seq<char> {
    v.map_values(|l: Seq<char>| l + seq!['\n']).flatten()
}

/// The lines of a text hold no newline; each followed by one, they are the text
/// again, but for a newline at its very end that the text may lack.
pub proof fn law_lines_make_up_the_text(text: Seq<char>)
    ensures
        forall|i: int| 0 <= i < lines(text).len() ==> !(#[trigger] lines(text)[i]).contains('\n'),
        text.len() == 0 || text.last() == '\n' ==> text_of(lines(text)) == text,
        text.len() > 0 && text.last() != '\n' ==> text_of(lines(text)) == text + seq!['\n'],
    decreases text.len(),
{
    let f = |l: Seq<char>| l + seq!['\n'];
    if text.len() == 0 {
        assert(lines(text).map_values(f) =~= Seq::empty());
    } else {
        lemma_before(text, '\n');
        let n = before(text, '\n');
        if n >= text.len() {
            assert(lines(text).map_values(f) =~= seq![text + seq!['\n']]);
            seq![text + seq!['\n']].lemma_flatten_one_element();
            assert(text.last() == text[text.len() - 1]);
        } else {
            let head = text.take(n);
            let rest = text.skip(n + 1);
            law_lines_make_up_the_text(rest);
            let all = lines(text);
            assert(forall|i: int| 0 < i < all.len() ==> all[i] == lines(rest)[i - 1]);
            let whole = head + seq!['\n'];
            assert(all.map_values(f) =~= seq![whole] + lines(rest).map_values(f));
            assert(all.map_values(f).drop_first() =~= lines(rest).map_values(f));
            assert(all.map_values(f).flatten() == whole + text_of(lines(rest)));
            assert(text =~= whole + rest);
            if rest.len() > 0 {
                assert(rest.last() == text.last());
            }
        }
    }
}

/// Each line of a file says what it says alone.
pub proof fn law_each_line_speaks_for_itself(text: Seq<char>, i: int)
    requires
        0 <= i < lines(text).len(),
    ensures
        file_says(text).len() == lines(text).len(),
        file_says(text)[i] == line_says(lines(text)[i]),
{
}

proof fn lemma_without_cr(s: Seq<char>) -> (j: int)
    ensures
        0 <= j <= s.len(),
        without_cr(s) == s.take(j),
        j > 0 ==> s[j - 1] != '\r',
        forall|k: int| j <= k < s.len() ==> s[k] == '\r',
    decreases s.len(),
{
    if s.len() > 0 && s.last() == '\r' {
        let j = lemma_without_cr(s.drop_last());
        assert(s.drop_last().take(j) =~= s.take(j));
        assert(forall|k: int| 0 <= k < s.len() - 1 ==> s.drop_last()[k] == s[k]);
        j
    } else {
        assert(s.take(s.len() as int) =~= s);
        s.len() as int
    }
}

/// White space in front of a line and a carriage return behind it say nothing.
pub proof fn law_line_ends_and_indents_say_nothing(line: Seq<char>, w: char)
    requires
        white(w),
        line.len() > 0,
    ensures
        line_says(line.push('\r')) == line_says(line),
        line_says(seq![w] + line) == line_says(line),
{
    let r = line.push('\r');
    assert(r.drop_last() =~= line);
    let s = seq![w] + line;
    let j = lemma_without_cr(line);
    let k = lemma_without_cr(s);
    if j > 0 {
        assert(s[j] == line[j - 1]);
    }
    if k > 1 {
        assert(s[k - 1] == line[k - 2]);
    }
    if j > 0 {
        assert(k == j + 1) by {
            if k <= j {
                assert(s[j] == '\r');
            }
            if k > j + 1 {
                assert(line[k - 2] == '\r');
            }
        }
        assert(without_cr(s).skip(1) =~= without_cr(line));
        assert(trim_start_spec(without_cr(s)) == trim_start_spec(without_cr(line)));
    } else {
        assert(trim_start_spec(without_cr(line)) =~= Seq::empty());
        let u = without_cr(s);
        let i = lemma_trim_start(u);
        if i < u.len() {
            if i > 0 {
                assert(u[i] == line[i - 1]);
                assert(line[i - 1] == '\r');
                assert(white('\r'));
            }
            assert(false);
        }
        assert(trim_start_spec(u) =~= Seq::empty());
    }
}

/// A line that is white space, or whose first other character is a `#`, says
/// nothing.
pub proof fn law_blank_and_comment_lines(a: Seq<char>, t: Seq<char>)
    requires
        forall|k: int| 0 <= k < a.len() ==> white(#[trigger] a[k]),
    ensures
        line_says(a) is Blank,
        line_says(a + seq!['#'] + t) is Blank,
{
    let i = lemma_without_cr(a);
    let j = lemma_trim_start(without_cr(a));
    if j < i {
        assert(white(a[j]));
    }
    let s = a + seq!['#'] + t;
    assert(s[a.len() as int] == '#');
    let m = lemma_without_cr(s);
    assert(m > a.len());
    let u = s.take(m);
    let k = lemma_trim_start(u);
    assert(u[a.len() as int] == '#' && !white('#'));
    if k < a.len() {
        assert(u[k] == a[k]);
    }
    assert(u.skip(k)[0] == u[k]);
}

/// The first `=` of a line parts the key from the value, whatever else the line
/// holds; blanks around the key, and `export ` in front of it, change nothing.
/// What is no key is reported as such, and so is a line without a `=`.
pub proof fn law_assignment(a: Seq<char>, key: Seq<char>, b: Seq<char>, rest: Seq<char>)
    requires
        forall|k: int| 0 <= k < a.len() ==> white(#[trigger] a[k]),
        forall|k: int| 0 <= k < b.len() ==> white(#[trigger] b[k]),
        key.len() > 0 ==> !white(key[0]) && !white(key.last()),
        !key.contains('='),
    ensures
        assignment(a + key + b + seq!['='] + rest) == if is_key(key) {
            EnvLineView::Assign { key, value: value_of(rest) }
        } else {
            EnvLineView::BadKey(key)
        },
        assignment(key) is NoEquals,
{
    let name = a + key + b;
    let s = name + seq!['='] + rest;
    let n = name.len() as int;
    assert forall|i: int| 0 <= i < n implies s[i] != '=' by {
        if i < a.len() {
            assert(s[i] == a[i]);
        } else if i < a.len() + key.len() {
            assert(s[i] == key[i - a.len()]);
        } else {
            assert(s[i] == b[i - a.len() - key.len()]);
        }
    }
    lemma_before_is(s, '=', n);
    assert(s.take(n) =~= name);
    assert(s.skip(n + 1) =~= rest);
    law_trim_gives_back(a, key, b);
    lemma_before(key, '=');
    if before(key, '=') < key.len() {
        assert(key[before(key, '=')] == '=');
    }
}

/// A line that assigns says so with and without `export ` in front: its key, and
/// the value of what follows the first `=`.
pub proof fn law_line_assigns(key: Seq<char>, rest: Seq<char>)
    requires
        is_key(key),
        rest.len() > 0 ==> rest.last() != '\r',
    ensures
        line_says(key + seq!['='] + rest) == (EnvLineView::Assign { key, value: value_of(rest) }),
        line_says("export "@ + (key + seq!['='] + rest)) == (EnvLineView::Assign {
            key,
            value: value_of(rest),
        }),
{
    reveal_strlit("export ");
    let none = Seq::<char>::empty();
    let raw = key + seq!['='] + rest;
    let n = key.len() as int;
    assert(key_char(key[0]) && key_char(key.last()));
    assert forall|i: int| 0 <= i < n implies raw[i] != '=' && raw[i] != ' ' by {
        assert(key_char(key[i]));
    }
    assert(!key.contains('='));
    assert(none + key + none + seq!['='] + rest =~= raw);
    law_assignment(none, key, none, rest);
    assert(raw.last() != '\r') by {
        if rest.len() > 0 {
            assert(raw.last() == rest.last());
        }
    }
    assert(raw[0] == key[0]);
    assert(without_cr(raw) == raw && trim_start_spec(raw) == raw);
    assert(raw[n] == '=');
    if "export "@.is_prefix_of(raw) {
        let start = raw.subrange(0, 7);
        assert(start == "export "@);
        assert(raw[6] == start[6]);
        if n < 6 {
            assert(start[n] == raw[n]);
        }
        assert(false);
    }
    let long = "export "@ + raw;
    assert(long.last() == raw.last());
    assert(long[0] == 'e');
    assert(without_cr(long) == long && trim_start_spec(long) == long);
    assert("export "@.is_prefix_of(long)) by {
        assert(long.subrange(0, 7) =~= "export "@);
    }
    assert(long.skip(7) =~= raw);
}

/// Which file is asked for: unset, one is searched; the empty text and `none`
/// ask for nothing; any other text names the file.
pub proof fn law_which_file(v: Seq<char>)
    ensures
        asked_for(None) is Search,
        asked_for(Some(Seq::empty())) is Skip,
        asked_for(Some(seq!['n', 'o', 'n', 'e'])) is Skip,
        v.len() > 0 && v != seq!['n', 'o', 'n', 'e'] ==> asked_for(Some(v))
            == EnvFileView::Explicit(v),
{
    reveal_strlit("none");
    assert("none"@ =~= seq!['n', 'o', 'n', 'e']);
}

/// A search takes the first default file that is there, and only if none is
/// there takes none.
pub proof fn law_search_takes_the_first(named_is_file: bool, defaults: Seq<bool>)
    ensures
        match source_of(EnvFileView::Search, named_is_file, defaults) {
            EnvSourceView::Default(i) => 0 <= i < defaults.len() && defaults[i] && forall|j: int|
                0 <= j < i ==> !defaults[j],
            EnvSourceView::NoDefault => !defaults.contains(true),
            _ => false,
        },
{
    lemma_first_there(defaults);
}

/// The first file of a directory is looked for right before the second, the
/// live configuration first and `/etc` last.
pub proof fn law_default_files(exe_dir: bool, above: bool)
    ensures
        ({
            let c = candidates_spec(exe_dir, above);
            let n = c.len() as int;
            &&& n == if !exe_dir {
                6int
            } else if !above {
                8
            } else {
                10
            }
            &&& c[0] == (Base::Root, "/data/orbit/config/orbit.env"@)
            &&& c[1] == (Base::Root, "/data/orbit/config/orbit-rs.env"@)
            &&& c[2] == (Base::WorkingDir, "config/orbit.env"@)
            &&& c[3] == (Base::WorkingDir, "config/orbit-rs.env"@)
            &&& exe_dir ==> c[4] == (Base::ExeDir, "config/orbit.env"@) && c[5] == (
                Base::ExeDir,
                "config/orbit-rs.env"@,
            )
            &&& exe_dir && above ==> c[6] == (Base::AboveExeDir, "config/orbit.env"@) && c[7] == (
                Base::AboveExeDir,
                "config/orbit-rs.env"@,
            )
            &&& c[n - 2] == (Base::Root, "/etc/orbit-rs/orbit.env"@)
            &&& c[n - 1] == (Base::Root, "/etc/orbit-rs/orbit-rs.env"@)
        }),
{
}

/// A file that is read is loaded: every line of it is.
pub proof fn law_what_is_read_is_loaded(path: Seq<char>, i: int, text: Seq<char>)
    ensures
        loaded(EnvSourceView::Named(path), Some(text)) == file_says(text),
        loaded(EnvSourceView::Default(i), Some(text)) == file_says(text),
{
}

/// Every line that is not blank and no comment is taken for an assignment, with
/// `export ` in front of it or without; one without a `=` is none.
pub proof fn law_other_lines(line: Seq<char>)
    requires
        line.len() > 0,
        !white(line[0]),
        line.last() != '\r',
    ensures
        line[0] != '#' && !(seq!['e', 'x', 'p', 'o', 'r', 't', ' ']).is_prefix_of(line)
            ==> line_says(line) == assignment(line),
        line_says(seq!['e', 'x', 'p', 'o', 'r', 't', ' '] + line) == assignment(line),
        !line.contains('=') ==> assignment(line) is NoEquals,
{
    reveal_strlit("export ");
    let word = seq!['e', 'x', 'p', 'o', 'r', 't', ' '];
    assert("export "@ =~= word);
    assert(without_cr(line) == line && trim_start_spec(line) == line);
    let long = word + line;
    assert(long.last() == line.last());
    assert(long[0] == 'e');
    assert(without_cr(long) == long && trim_start_spec(long) == long);
    assert(long.subrange(0, 7) =~= word);
    assert(long.skip(7) =~= line);
    lemma_before(line, '=');
    if before(line, '=') < line.len() {
        assert(line[before(line, '=')] == '=');
    }
}

/// White space around the quotes does not change a quoted value.
pub proof fn law_space_around_quotes(a: Seq<char>, q: char, v: Seq<char>, b: Seq<char>)
    requires
        forall|k: int| 0 <= k < a.len() ==> white(#[trigger] a[k]),
        forall|k: int| 0 <= k < b.len() ==> white(#[trigger] b[k]),
        q == '"' || q == '\'',
    ensures
        value_of(a + (seq![q] + v + seq![q]) + b) == v,
{
    let s = seq![q] + v + seq![q];
    assert(!white(q));
    assert(s[0] == q && s.last() == q);
    law_trim_gives_back(a, s, b);
    assert(s.subrange(1, s.len() - 1) =~= v);
}

/// A file that is named is used if it is one, and is reported missing if not;
/// where none is wanted, none is looked for.
pub proof fn law_named_file(path: Seq<char>, defaults: Seq<bool>, is_file: bool)
    ensures
        source_of(EnvFileView::Explicit(path), true, defaults) == EnvSourceView::Named(path),
        source_of(EnvFileView::Explicit(path), false, defaults) == EnvSourceView::Missing(path),
        source_of(EnvFileView::Skip, is_file, defaults) is Nothing,
        EnvSourceView::Named(path).reads() && EnvSourceView::Default(0).reads(),
        !EnvSourceView::Missing(path).reads() && !EnvSourceView::Nothing.reads(),
        !EnvSourceView::NoDefault.reads(),
{
}

} // verus!
