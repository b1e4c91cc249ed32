//! Where NativeTerm keeps its own data. First match wins: `--data-dir`;
//! `NATIVETERM_DATA_DIR`; `nativeterm.toml` next to the program
//! (`data_dir = "…"`, relative to the program folder); the user's registry;
//! `data` next to the program if writable, else the folder for application
//! data.

use vstd::prelude::*;

use crate::paths;
use crate::text;

verus! {

pub const ENV: &'static str = "NATIVETERM_DATA_DIR";

pub const POINTER_FILE: &'static str = "nativeterm.toml";

pub const REGISTRY_KEY: &'static str = "Software\\NativeTerm";

pub const REGISTRY_VALUE: &'static str = "DataDir";

/// The first line of the pointer file.
pub const HEADER: &'static str = "# where NativeTerm keeps its data (Settings > Change data folder)";

/// The folders inside it: sent commands, copies of the ssh config files
/// NativeTerm edited, and its own log.
pub const FOLDERS: [&'static str; 3] = ["audit", "backups", "logs"];

/// `toml::map::Map`, of which `toml::Table` is an instance.
#[verifier::external_type_specification]
#[verifier::external_body]
#[verifier::reject_recursive_types(K)]
#[verifier::reject_recursive_types(V)]
pub struct ExTomlMap<K, V>(toml::map::Map<K, V>);

/// `toml::Value`.
#[verifier::external_type_specification]
#[verifier::external_body]
pub struct ExTomlValue(toml::Value);

/// A value in a TOML table: a text, a whole number, a switch or a float; or
/// anything else (a date, an array, a table).
pub enum Held {
    Text(Seq<char>),
    Integer(int),
    Switch(bool),
    Float,
    Other,
}

/// What a TOML table holds, by its keys.
pub uninterp spec fn entries(table: toml::map::Map<String, toml::Value>) -> Map<Seq<char>, Held>;

/// What the table that a TOML document describes holds, or why the text is
/// no such document.
pub uninterp spec fn document(text: Seq<char>) -> Result<Map<Seq<char>, Held>, Seq<char>>;

/// A TOML table as a document.
pub uninterp spec fn written(table: toml::map::Map<String, toml::Value>) -> Seq<char>;

/// The text under a key.
pub open spec fn text_under(table: Map<Seq<char>, Held>, key: Seq<char>) -> Option<Seq<char>> {
    if table.contains_key(key) {
        match table[key] {
            Held::Text(s) => Some(s),
            _ => None,
        }
    } else {
        None
    }
}

/// What an empty table holds.
pub open spec fn no_entries() -> Map<Seq<char>, Held> {
    Map::empty()
}

/// A comment that fills a line of TOML.
pub open spec fn is_comment(line: Seq<char>) -> bool {
    line.len() > 0 && line[0] == '#' && forall|i: int| 0 <= i < line.len() ==> ' ' <= #[trigger] line[i] <= '~'
}

/// `toml::Table::from_str`, and the `Display` format of its error: the table
/// that a TOML document describes, or why the text is none.
#[verifier::external_body]
fn read_table(text: &str) -> (r: Result<toml::map::Map<String, toml::Value>, String>)
    ensures
        match r {
            Ok(table) => document(text@) == Ok::<Map<Seq<char>, Held>, Seq<char>>(entries(table)),
            Err(why) => document(text@) == Err::<Map<Seq<char>, Held>, Seq<char>>(why@),
        },
{
    text.parse::<toml::Table>().map_err(|e| e.to_string())
}

/// `toml::Table::new`: an empty table.
#[verifier::external_body]
fn new_table() -> (r: toml::map::Map<String, toml::Value>)
    ensures
        entries(r) == no_entries(),
{
    toml::Table::new()
}

/// `toml::Table::get`, and `toml::Value::as_str` on what it found: the
/// string under a key, if there is one.
#[verifier::external_body]
fn string_under(table: &toml::map::Map<String, toml::Value>, key: &str) -> (r: Option<String>)
    ensures
        text::optional(r) == text_under(entries(*table), key@),
{
    table.get(key).and_then(toml::Value::as_str).map(String::from)
}

/// `toml::Table::insert` of a string: it is under the key afterwards, and
/// everything else stays.
#[verifier::external_body]
fn put_string(table: &mut toml::map::Map<String, toml::Value>, key: &str, value: &str)
    ensures
        entries(*final(table)) == entries(*old(table)).insert(key@, Held::Text(value@)),
{
    table.insert(String::from(key), toml::Value::String(String::from(value)));
}

/// A text without control characters.
pub open spec fn is_printable(s: Seq<char>) -> bool {
    forall|i: int| 0 <= i < s.len() ==> ' ' <= #[trigger] s[i] && s[i] != '\u{7f}'
}

/// Nothing but texts, numbers and switches under the keys, and no control
/// character in a key or a text.
pub open spec fn is_flat(table: Map<Seq<char>, Held>) -> bool {
    forall|k: Seq<char>| #[trigger]
        table.contains_key(k) ==> is_printable(k) && (match table[k] {
            Held::Text(s) => is_printable(s),
            Held::Other => false,
            _ => true,
        })
}

/// The `Display` format of `toml::Table`: a text that, where it reads as a
/// TOML document at all, reads as a table with the same contents, also
/// behind a line that is a comment. A table of printable texts, numbers and
/// switches does read back. Whether one with other values does is left
/// unsaid (it may be nested deeper than can be read), and so is how the
/// document is laid out.
#[verifier::external_body]
fn write_table(table: &toml::map::Map<String, toml::Value>) -> (r: String)
    ensures
        r@ == written(*table),
        forall|line: Seq<char>|
            is_comment(line) ==> (document(#[trigger] line.push('\n') + r@) matches Ok(d) ==> d == entries(*table)),
        forall|line: Seq<char>|
            is_comment(line) && is_flat(entries(*table)) ==> document(#[trigger] line.push('\n') + r@) is Ok,
{
    table.to_string()
}

/// Everything the decision depends on besides the disk.
#[derive(Clone, Debug, PartialEq, Eq)]
pub struct Inputs {
    pub command_line: Option<String>,
    pub env: Option<String>,
    pub program_dir: String,
    pub registry: Option<String>,
    pub app_data: Option<String>,
}

/// What reading `nativeterm.toml` gave.
#[derive(Clone, Debug, PartialEq, Eq)]
pub enum Read {
    Missing,
    Text(String),
    /// It is there and could not be read.
    Failed(String),
}

/// How the data directory was chosen.
#[derive(Clone, Copy, Debug, PartialEq, Eq, Structural)]
pub enum Source {
    CommandLine,
    Environment,
    PointerFile,
    Registry,
    ProgramFolder,
    /// The system's folder for application data.
    AppData,
}

/// A place for the data.
#[derive(Clone, Debug, PartialEq, Eq)]
pub enum Place {
    /// This path.
    Path(String),
    /// This path, taken from the program folder unless it is a full one.
    FromProgram(String),
}

/// A place for the data.
pub enum PlaceView {
    Path(Seq<char>),
    FromProgram(Seq<char>),
}

impl View for Place {
    type V = PlaceView;

    open spec fn view(&self) -> PlaceView {
        match *self {
            Place::Path(p) => PlaceView::Path(p@),
            Place::FromProgram(p) => PlaceView::FromProgram(p@),
        }
    }
}

/// Why there is no data directory.
#[derive(Clone, Debug, PartialEq, Eq)]
pub enum NoPlace {
    /// `nativeterm.toml` is no TOML (what is wrong with it).
    Broken(String),
    /// `nativeterm.toml` could not be read (why).
    Unreadable(String),
    /// The system's folder for application data is not set.
    NoAppData,
}

/// What the pointer file says, or why it is broken.
pub open spec fn pointed(text: Seq<char>) -> Result<Option<Seq<char>>, Seq<char>> {
    match document(text) {
        Err(why) => Err(why),
        Ok(d) => Ok(text_under(d, "data_dir"@)),
    }
}

/// What the pointer file says; an error where it is no TOML.
pub fn pointer(text: &str) -> (r: Result<Option<String>, String>)
    ensures
        match r {
            Ok(dir) => pointed(text@) == Ok::<Option<Seq<char>>, Seq<char>>(text::optional(dir)),
            Err(why) => pointed(text@) == Err::<Option<Seq<char>>, Seq<char>>(why@),
        },
{
    match read_table(text) {
        Ok(table) => Ok(string_under(&table, "data_dir")),
        Err(why) => Err(why),
    }
}

/// The choice below the pointer file.
pub open spec fn is_choice_below(i: Inputs, writable: bool, r: Result<(Place, Source), NoPlace>) -> bool {
    match i.registry {
        Some(dir) => r matches Ok((place, source)) && place@ == PlaceView::Path(dir@) && source == Source::Registry,
        None => if writable {
            r matches Ok((Place::Path(dir), source)) && paths::is_joined(dir@, i.program_dir@, "data"@) && source
                == Source::ProgramFolder
        } else {
            match i.app_data {
                Some(base) => r matches Ok((Place::Path(dir), source)) && paths::is_joined(dir@, base@, "NativeTerm"@)
                    && source == Source::AppData,
                None => r matches Err(e) && e == NoPlace::NoAppData,
            }
        },
    }
}

/// `r` is the data directory for these inputs, this pointer file, and a
/// `data` folder next to the program that is writable or not.
pub open spec fn is_choice(i: Inputs, read: Read, writable: bool, r: Result<(Place, Source), NoPlace>) -> bool {
    match (i.command_line, i.env) {
        (Some(dir), _) => r matches Ok((place, source)) && place@ == PlaceView::Path(dir@) && source
            == Source::CommandLine,
        (None, Some(dir)) => r matches Ok((place, source)) && place@ == PlaceView::Path(dir@) && source
            == Source::Environment,
        (None, None) => match read {
            Read::Failed(why) => r matches Err(NoPlace::Unreadable(w)) && w@ == why@,
            Read::Missing => is_choice_below(i, writable, r),
            Read::Text(text) => match pointed(text@) {
                Err(why) => r matches Err(NoPlace::Broken(w)) && w@ == why,
                Ok(None) => is_choice_below(i, writable, r),
                Ok(Some(dir)) => r matches Ok((place, source)) && place@ == PlaceView::FromProgram(dir) && source
                    == Source::PointerFile,
            },
        },
    }
}

proof fn lemma_plain_names()
    ensures
        paths::is_plain("data"@),
        paths::is_plain("NativeTerm"@),
{
    reveal_strlit("data");
    reveal_strlit("NativeTerm");
}

fn choose_below(i: &Inputs, writable: bool) -> (r: Result<(Place, Source), NoPlace>)
    ensures
        is_choice_below(*i, writable, r),
{
    if let Some(dir) = &i.registry {
        return Ok((Place::Path(dir.clone()), Source::Registry));
    }
    proof {
        lemma_plain_names();
    }
    if writable {
        return Ok((Place::Path(paths::join(&i.program_dir, "data")), Source::ProgramFolder));
    }
    match &i.app_data {
        Some(base) => Ok((Place::Path(paths::join(base, "NativeTerm")), Source::AppData)),
        None => Err(NoPlace::NoAppData),
    }
}

/// The data directory and how it was chosen. `read` is what the pointer file
/// next to the program gave, `writable` whether files can be created in
/// `data` next to the program.
pub fn resolve(inputs: &Inputs, read: &Read, writable: bool) -> (r: Result<(Place, Source), NoPlace>)
    ensures
        is_choice(*inputs, *read, writable, r),
{
    if let Some(dir) = &inputs.command_line {
        return Ok((Place::Path(dir.clone()), Source::CommandLine));
    }
    if let Some(dir) = &inputs.env {
        return Ok((Place::Path(dir.clone()), Source::Environment));
    }
    match read {
        Read::Failed(why) => Err(NoPlace::Unreadable(why.clone())),
        Read::Missing => choose_below(inputs, writable),
        Read::Text(text) => match pointer(text) {
            Err(why) => Err(NoPlace::Broken(why)),
            Ok(Some(dir)) => Ok((Place::FromProgram(dir), Source::PointerFile)),
            Ok(None) => choose_below(inputs, writable),
        },
    }
}

/// How a source is called; the folder for application data by the name that
/// the system has for it.
pub open spec fn source_named(source: Source, app_data: Seq<char>) -> Seq<char> {
    match source {
        Source::CommandLine => "--data-dir"@,
        Source::Environment => ENV@,
        Source::PointerFile => POINTER_FILE@,
        Source::Registry => "HKCU\\Software\\NativeTerm\\DataDir"@,
        Source::ProgramFolder => "program folder"@,
        Source::AppData => app_data,
    }
}

impl Source {
    /// How the source is called.
    pub fn name(self, app_data: &str) -> (r: String)
        ensures
            r@ == source_named(self, app_data@),
    {
        match self {
            Source::CommandLine => text::owned("--data-dir"),
            Source::Environment => text::owned(ENV),
            Source::PointerFile => text::owned(POINTER_FILE),
            Source::Registry => text::owned("HKCU\\Software\\NativeTerm\\DataDir"),
            Source::ProgramFolder => text::owned("program folder"),
            Source::AppData => text::owned(app_data),
        }
    }
}

/// What "Change data directory" updates, by how the current one was chosen.
#[derive(Clone, Copy, Debug, PartialEq, Eq, Structural)]
pub enum Pointer {
    /// `nativeterm.toml` next to the program (portable mode).
    File,
    /// The user's registry (installed mode).
    Registry,
    /// Chosen by `--data-dir` or the environment: not NativeTerm's to change.
    Fixed,
}

/// What is updated for a source.
pub open spec fn updated_for(source: Seq<char>) -> Pointer {
    if source == "--data-dir"@ || source == ENV@ {
        Pointer::Fixed
    } else if source == POINTER_FILE@ || source == "program folder"@ {
        Pointer::File
    } else {
        Pointer::Registry
    }
}

/// What is updated for a source.
pub fn pointer_for(source: &str) -> (r: Pointer)
    ensures
        r == updated_for(source@),
{
    if text::same(source, "--data-dir") || text::same(source, ENV) {
        Pointer::Fixed
    } else if text::same(source, POINTER_FILE) || text::same(source, "program folder") {
        Pointer::File
    } else {
        Pointer::Registry
    }
}

/// What the person chose for one start is never overwritten; the portable
/// folder is changed in its own file.
pub proof fn law_sources_and_pointers(source: Source, app_data: Seq<char>)
    ensures
        source is CommandLine || source is Environment ==> updated_for(source_named(source, app_data))
            == Pointer::Fixed,
        source is PointerFile || source is ProgramFolder ==> updated_for(source_named(source, app_data))
            == Pointer::File,
        source is Registry ==> updated_for(source_named(source, app_data)) == Pointer::Registry,
{
    reveal_strlit("--data-dir");
    reveal_strlit("NATIVETERM_DATA_DIR");
    reveal_strlit("nativeterm.toml");
    reveal_strlit("program folder");
    reveal_strlit("HKCU\\Software\\NativeTerm\\DataDir");
    assert("--data-dir"@.len() == 10 && "NATIVETERM_DATA_DIR"@.len() == 19 && "nativeterm.toml"@.len() == 15
        && "program folder"@.len() == 14 && "HKCU\\Software\\NativeTerm\\DataDir"@.len() == 32);
}

/// `text` is a pointer file that points at `dir` and keeps what was in the
/// file `before`.
pub open spec fn points_at(text: Seq<char>, before: Map<Seq<char>, Held>, dir: Seq<char>) -> bool {
    let now = before.insert("data_dir"@, Held::Text(dir));
    &&& exists|table: toml::map::Map<String, toml::Value>| #[trigger]
        entries(table) == now && text == HEADER@.push('\n') + written(table)
    &&& document(text) matches Ok(d) ==> d == now && pointed(text) == Ok::<Option<Seq<char>>, Seq<char>>(Some(dir))
    &&& is_flat(now) ==> document(text) is Ok
}

/// The text of a pointer file that points future starts at `dir`: what the
/// file held before stays in it. `read` is what reading it gave.
pub fn set_pointer(read: &Read, dir: &str) -> (r: Result<String, NoPlace>)
    ensures
        match *read {
            Read::Failed(why) => r matches Err(NoPlace::Unreadable(w)) && w@ == why@,
            Read::Missing => r matches Ok(text) && points_at(text@, no_entries(), dir@),
            Read::Text(was) => match document(was@) {
                Err(why) => r matches Err(NoPlace::Broken(w)) && w@ == why,
                Ok(before) => r matches Ok(text) && points_at(text@, before, dir@),
            },
        },
{
    let mut table = match read {
        Read::Failed(why) => {
            return Err(NoPlace::Unreadable(why.clone()));
        },
        Read::Missing => new_table(),
        Read::Text(text) => match read_table(text) {
            Ok(table) => table,
            Err(why) => {
                return Err(NoPlace::Broken(why));
            },
        },
    };
    let ghost before = entries(table);
    put_string(&mut table, "data_dir", dir);
    let body = write_table(&table);
    let head = text::plus(HEADER, "\n");
    let r = text::plus(&head, &body);
    proof {
        reveal_strlit("# where NativeTerm keeps its data (Settings > Change data folder)");
        reveal_strlit("\n");
        assert("\n"@ =~= seq!['\n']);
        assert(head@ =~= HEADER@.push('\n'));
        assert(is_comment(HEADER@));
        assert(entries(table) == before.insert("data_dir"@, Held::Text(dir@)));
        assert(points_at(r@, before, dir@));
    }
    Ok(r)
}

/// `s` without the separators it ends in.
pub open spec fn without_separators(s: Seq<char>) -> Seq<char>
    decreases s.len(),
{
    if s.len() > 0 && (s.last() == '\\' || s.last() == '/') {
        without_separators(s.drop_last())
    } else {
        s
    }
}

/// `/` as `\`, anything else as it is.
pub open spec fn backslashed(c: char) -> char {
    if c == '/' {
        '\\'
    } else {
        c
    }
}

/// A path as it is compared: no separator at the end, one kind of them, in
/// lower case.
pub open spec fn compared(path: Seq<char>) -> Seq<char> {
    text::lowercase_text(without_separators(path).map_values(|c: char| backslashed(c)))
}

fn normalized(path: &str) -> (r: String)
    ensures
        r@ == compared(path@),
{
    let chars = text::chars_of(path);
    let mut to: usize = chars.len();
    proof {
        assert(chars@.take(to as int) =~= chars@);
    }
    while to > 0 && (chars[to - 1] == '\\' || chars[to - 1] == '/')
        invariant
            to <= chars@.len(),
            without_separators(chars@) == without_separators(chars@.take(to as int)),
        decreases to,
    {
        proof {
            assert(chars@.take(to as int).drop_last() =~= chars@.take(to - 1));
        }
        to -= 1;
    }
    let ghost kept = without_separators(chars@);
    proof {
        assert(kept == chars@.take(to as int));
    }
    let mut shown: Vec<char> = Vec::new();
    let mut i: usize = 0;
    while i < to
        invariant
            i <= to <= chars@.len(),
            kept == chars@.take(to as int),
            shown@ == kept.map_values(|c: char| backslashed(c)).take(i as int),
        decreases to - i,
    {
        let c = chars[i];
        shown.push(
            if c == '/' {
                '\\'
            } else {
                c
            },
        );
        proof {
            let all = kept.map_values(|c: char| backslashed(c));
            assert(all.take(i + 1) =~= all.take(i as int).push(backslashed(c)));
        }
        i += 1;
    }
    proof {
        let all = kept.map_values(|c: char| backslashed(c));
        assert(all.take(to as int) =~= all);
    }
    let plain = text::string_of(&shown);
    text::to_lower(&plain)
}

/// What is in a folder that data is to go to.
#[derive(Clone, Debug, PartialEq, Eq)]
pub enum Contents {
    Missing,
    Empty,
    Something,
    /// It could not be looked into.
    Failed(String),
}

/// Why a folder cannot take the data.
#[derive(Clone, Debug, PartialEq, Eq)]
pub enum BadTarget {
    NotFull,
    Current,
    Nested,
    NotEmpty,
    Failed(String),
}

/// `inner` lies inside the folder `outer` (both as they are compared).
pub open spec fn lies_inside(inner: Seq<char>, outer: Seq<char>) -> bool {
    text::has_prefix(inner, outer.push('\\'))
}

/// `r` says whether `new` can take the data now in `current`.
pub open spec fn is_target_answer(
    current: Seq<char>,
    new: Seq<char>,
    full: bool,
    found: Contents,
    r: Result<(), BadTarget>,
) -> bool {
    let a = compared(current);
    let b = compared(new);
    if !full {
        r == Err::<(), BadTarget>(BadTarget::NotFull)
    } else if a == b {
        r == Err::<(), BadTarget>(BadTarget::Current)
    } else if lies_inside(a, b) || lies_inside(b, a) {
        r == Err::<(), BadTarget>(BadTarget::Nested)
    } else {
        match found {
            Contents::Missing => r is Ok,
            Contents::Empty => r is Ok,
            Contents::Something => r == Err::<(), BadTarget>(BadTarget::NotEmpty),
            Contents::Failed(why) => r matches Err(BadTarget::Failed(w)) && w@ == why@,
        }
    }
}

fn inside(inner: &str, outer: &str) -> (r: bool)
    ensures
        r == lies_inside(inner@, outer@),
{
    let inner = text::chars_of(inner);
    let mut outer = text::chars_of(outer);
    outer.push('\\');
    text::starts_with(&inner, &outer)
}

/// Whether `new` can take the data now in `current`: a full path, not the
/// same folder or inside it (or around it), and empty. `full` is whether
/// the path is a full one, `found` what is there.
pub fn check_target(current: &str, new: &str, full: bool, found: &Contents) -> (r: Result<(), BadTarget>)
    ensures
        is_target_answer(current@, new@, full, *found, r),
{
    if !full {
        return Err(BadTarget::NotFull);
    }
    let a = normalized(current);
    let b = normalized(new);
    if text::same(&a, &b) {
        return Err(BadTarget::Current);
    }
    if inside(&b, &a) || inside(&a, &b) {
        return Err(BadTarget::Nested);
    }
    match found {
        Contents::Missing => Ok(()),
        Contents::Empty => Ok(()),
        Contents::Something => Err(BadTarget::NotEmpty),
        Contents::Failed(why) => Err(BadTarget::Failed(why.clone())),
    }
}

impl BadTarget {
    /// Why, in words.
    pub open spec fn words(self) -> Seq<char> {
        match self {
            BadTarget::NotFull => "not a full path"@,
            BadTarget::Current => "that is the current folder"@,
            BadTarget::Nested => "one folder is inside the other"@,
            BadTarget::NotEmpty => "the folder isn't empty"@,
            BadTarget::Failed(why) => why@,
        }
    }

    /// Why, in words.
    pub fn describe(&self) -> (r: String)
        ensures
            r@ == self.words(),
    {
        match self {
            BadTarget::NotFull => text::owned("not a full path"),
            BadTarget::Current => text::owned("that is the current folder"),
            BadTarget::Nested => text::owned("one folder is inside the other"),
            BadTarget::NotEmpty => text::owned("the folder isn't empty"),
            BadTarget::Failed(why) => why.clone(),
        }
    }
}

/// No folder takes the data of a folder that it overlaps with, whichever
/// lies inside the other and whatever is in it; spelling and a separator at
/// the end make no other folder of it.
pub proof fn law_no_target_overlaps(
    current: Seq<char>,
    new: Seq<char>,
    full: bool,
    found: Contents,
    r: Result<(), BadTarget>,
)
    requires
        is_target_answer(current, new, full, found, r),
    ensures
        r is Ok ==> compared(current) != compared(new),
        r is Ok ==> !lies_inside(compared(current), compared(new)),
        r is Ok ==> !lies_inside(compared(new), compared(current)),
        compared(current.push('\\')) == compared(current),
        compared(current.push('/')) == compared(current),
{
    assert(current.push('\\').drop_last() =~= current);
    assert(current.push('/').drop_last() =~= current);
}

/// A file in the data directory itself that is not copied as it is: the
/// database (it is written as a snapshot) and what a probe left behind.
pub open spec fn is_left_out(top: bool, name: Seq<char>) -> bool {
    top && (text::has_prefix(name, "state.db"@) || text::has_prefix(name, ".write-test-"@))
}

/// Whether an entry is left out of a copy of the data. `top` is whether it
/// lies in the data directory itself.
pub fn left_out(top: bool, name: &str) -> (r: bool)
    ensures
        r == is_left_out(top, name@),
{
    let name = text::chars_of(name);
    let db = text::chars_of("state.db");
    let probe = text::chars_of(".write-test-");
    top && (text::starts_with(&name, &db) || text::starts_with(&name, &probe))
}

/// Where the data is kept: the first that holds of the command line, the
/// environment, the pointer file, the registry, a folder beside the program
/// that can be written to, and the folder for application data.
pub proof fn law_first_match_wins(i: Inputs, read: Read, writable: bool, r: Result<(Place, Source), NoPlace>)
    requires
        is_choice(i, read, writable, r),
    ensures
        i.command_line matches Some(d) ==> (r matches Ok((p, s)) && p@ == PlaceView::Path(d@) && s == Source::CommandLine),
        i.command_line is None ==> (i.env matches Some(d) ==> (r matches Ok((p, s)) && p@ == PlaceView::Path(d@) && s
            == Source::Environment)),
        i.command_line is None && i.env is None ==> {
            let open = match read {
                Read::Missing => true,
                Read::Text(t) => document(t@) is Ok && text_under(document(t@)->Ok_0, "data_dir"@) is None,
                Read::Failed(_) => false,
            };
            &&& read is Failed ==> r is Err
            &&& read matches Read::Text(t) ==> (document(t@) is Err ==> r is Err)
            &&& read matches Read::Text(t) ==> (document(t@) is Ok ==> (text_under(document(t@)->Ok_0, "data_dir"@) matches Some(d)
                ==> (r matches Ok((p, s)) && p@ == PlaceView::FromProgram(d) && s == Source::PointerFile)))
            &&& open ==> (i.registry matches Some(d) ==> (r matches Ok((p, s)) && p@ == PlaceView::Path(d@) && s == Source::Registry))
            &&& open && i.registry is None && writable ==> (r matches Ok((Place::Path(d), s)) && paths::is_joined(
                d@,
                i.program_dir@,
                "data"@,
            ) && s == Source::ProgramFolder)
            &&& open && i.registry is None && !writable ==> (i.app_data matches Some(base) ==> (r matches Ok((Place::Path(d), s))
                && paths::is_joined(d@, base@, "NativeTerm"@) && s == Source::AppData))
            &&& open && i.registry is None && !writable && i.app_data is None ==> r is Err
        },
{
}

/// Only a text under the key says where the data is.
pub proof fn law_text_under_a_key(table: Map<Seq<char>, Held>, key: Seq<char>, s: Seq<char>)
    ensures
        !table.contains_key(key) ==> text_under(table, key) is None,
        text_under(table.insert(key, Held::Text(s)), key) == Some(s),
        text_under(table.insert(key, Held::Other), key) is None && text_under(table.insert(key, Held::Float), key) is None,
        text_under(table.insert(key, Held::Integer(5)), key) is None && text_under(table.insert(key, Held::Switch(true)), key) is None,
{
}

/// What is compared of two folders: neither separators at the end nor which
/// separator it is, nor the case.
pub proof fn law_folders_compared(s: Seq<char>)
    ensures
        without_separators(s.push('/')) == without_separators(s),
        without_separators(s.push('\\')) == without_separators(s),
        s.len() == 0 || (s[s.len() - 1] != '/' && s[s.len() - 1] != '\\') ==> without_separators(s) == s,
        backslashed('/') == '\\',
        forall|c: char| c != '/' ==> #[trigger] backslashed(c) == c,
        s.len() == 0 || (s[s.len() - 1] != '/' && s[s.len() - 1] != '\\') ==> compared(s) == text::lowercase_text(
            s.map_values(
                |c: char|
                    if c == '/' {
                        '\\'
                    } else {
                        c
                    },
            ),
        ),
{
    assert(s.push('/').drop_last() =~= s);
    assert(s.push('\\').drop_last() =~= s);
    assert(s.map_values(|c: char| backslashed(c)) =~= s.map_values(
        |c: char|
            if c == '/' {
                '\\'
            } else {
                c
            },
    ));
}

/// A folder takes the data where its path is full, it is another one, none
/// of the two is inside the other, and it is empty or not there.
pub proof fn law_folders_that_take_the_data(current: Seq<char>, new: Seq<char>, full: bool, found: Contents, r: Result<(), BadTarget>)
    requires
        is_target_answer(current, new, full, found, r),
    ensures
        r is Ok <==> full && compared(current) != compared(new) && !text::has_prefix(compared(new), compared(current).push('\\'))
            && !text::has_prefix(compared(current), compared(new).push('\\')) && (found is Missing || found is Empty),
        !full ==> r == Err::<(), BadTarget>(BadTarget::NotFull),
        full && compared(current) == compared(new) ==> r == Err::<(), BadTarget>(BadTarget::Current),
        full && found is Something ==> r is Err,
{
}

/// What is left behind when the data is copied: the database itself, which
/// is copied by itself, and what a test for writing left; only at the top.
pub proof fn law_what_is_left_behind(name: Seq<char>)
    ensures
        !is_left_out(false, name),
        is_left_out(true, name) <==> text::has_prefix(name, "state.db"@) || text::has_prefix(name, ".write-test-"@),
{
}

/// What a pointer file says: the folder under its key, or why it can't be
/// read.
pub proof fn law_what_a_pointer_says(text: Seq<char>)
    ensures
        document(text) matches Err(why) ==> pointed(text) == Err::<Option<Seq<char>>, Seq<char>>(why),
        document(text) matches Ok(d) ==> pointed(text) == Ok::<Option<Seq<char>>, Seq<char>>(text_under(d, "data_dir"@)),
{
}

} // verus!
