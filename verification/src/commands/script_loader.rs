use vstd::prelude::*;

use crate::errors::BullRsError;
use crate::text::{chars_of, decimal, push_decimal, replaced, string_from, sub_chars, sub_string};
use super::includes::{
    byte_slice, cap_usize, find_byte_position, find_position, include_target, lines_of,
    parse_include_directive, slice_bytes, split_lines, utf8_len, utf8_length, views,
};
use crate::utils::{is_possibly_mapped_path, remove_empty_lines, replace_all, without_leading_blank_lines, ensure_ext, path_extension, possibly_mapped, split_filename, split_stem_spec, stem_or_empty, with_ext};

verus! {

/// Error type for script loader operations
#[derive(Debug, Clone)]
pub struct ScriptLoaderError {
    /// Error message
    pub message: String,
    /// Path of the file where the error occurred
    pub path: String,
    /// Include stack leading to the error
    pub includes: Vec<String>,
    /// Line number where the error occurred
    pub line: usize,
    /// Position in the line where the error occurred
    pub position: usize,
}

/// `parts` joined with `sep` between consecutive parts.
pub open spec fn joined(parts: Seq<Seq<char>>, sep: Seq<char>) -> Seq<char>
    decreases parts.len(),
{
    if parts.len() == 0 {
        Seq::empty()
    } else if parts.len() == 1 {
        parts[0]
    } else {
        joined(parts.drop_last(), sep) + sep + parts.last()
    }
}

/// The text of a script loader error:
/// `<message> at <path>:<line>:<position>`, followed by
/// ` (include stack: a -> b)` when there is an include stack.
pub open spec fn error_text(e: ScriptLoaderError) -> Seq<char> {
    let head = e.message@ + " at "@ + e.path@ + ":"@ + decimal(e.line as nat) + ":"@ + decimal(
        e.position as nat,
    );
    if e.includes@.len() == 0 {
        head
    } else {
        head + " (include stack: "@ + joined(e.includes@.map_values(|s: String| s@), " -> "@)
            + ")"@
    }
}

impl ScriptLoaderError {
    /// The error's text, as displayed.
    pub fn to_string(&self) -> (s: String)
        ensures
            s@ == error_text(*self),
    {
        let mut s = self.message.clone();
        s.append(" at ");
        s.append(self.path.as_str());
        s.append(":");
        let mut digits: Vec<char> = Vec::new();
        push_decimal(self.line as u64, &mut digits);
        let line = string_from(digits.as_slice());
        s.append(line.as_str());
        s.append(":");
        let mut digits2: Vec<char> = Vec::new();
        push_decimal(self.position as u64, &mut digits2);
        let pos = string_from(digits2.as_slice());
        s.append(pos.as_str());
        let ghost head = s@;
        if self.includes.len() > 0 {
            s.append(" (include stack: ");
            let mut k: usize = 0;
            let ghost parts = self.includes@.map_values(|x: String| x@);
            while k < self.includes.len()
                invariant
                    parts == self.includes@.map_values(|x: String| x@),
                    1 <= self.includes@.len(),
                    k <= self.includes@.len(),
                    k == 0 ==> s@ == head + " (include stack: "@,
                    k > 0 ==> s@ == head + " (include stack: "@ + joined(parts.take(k as int), " -> "@),
                decreases self.includes@.len() - k,
            {
                if k > 0 {
                    s.append(" -> ");
                }
                s.append(self.includes[k].as_str());
                proof {
                    assert(parts.take(k + 1).drop_last() == parts.take(k as int));
                    assert(parts.take(k + 1).last() == self.includes@[k as int]@);
                    if k == 0 {
                        assert(joined(parts.take(1), " -> "@) == parts.take(1)[0]);
                    }
                }
                k = k + 1;
            }
            s.append(")");
            proof {
                assert(parts.take(self.includes@.len() as int) == parts);
            }
        }
        s
    }

    /// The library error for this one: a `ScriptError` holding its text.
    pub fn into_error(self) -> (e: BullRsError)
        ensures
            e matches BullRsError::ScriptError(s) && s@ == error_text(self),
    {
        BullRsError::ScriptError(self.to_string())
    }
}

/// A command definition
#[derive(Debug)]
pub struct CommandDefinition {
    /// Command name
    pub name: String,
    /// Number of keys this command expects
    pub num_keys: Option<usize>,
    /// Command script
    pub script: String,
    /// Lua script file path
    pub file_path: String,
}

impl Clone for CommandDefinition {
    fn clone(&self) -> (c: Self)
        ensures
            c == *self,
    {
        CommandDefinition {
            name: self.name.clone(),
            num_keys: self.num_keys,
            script: self.script.clone(),
            file_path: self.file_path.clone(),
        }
    }
}

impl CommandDefinition {
    /// The command loaded from the script file `file_path` with interpolated
    /// text `script`: named after the file's stem, with the key count that
    /// a `-<n>` suffix of the stem gives.
    pub fn from_script(file_path: &str, script: String) -> (c: Self)
        ensures
            c.name@ == split_stem_spec(stem_or_empty(file_path@)).0,
            c.num_keys matches Some(n) ==> split_stem_spec(stem_or_empty(file_path@)).1 == Some(n as nat),
            c.num_keys is None ==> split_stem_spec(stem_or_empty(file_path@)).1 is None,
            c.script == script,
            c.file_path@ == file_path@,
    {
        let (name, num_keys) = split_filename(file_path);
        CommandDefinition { name, num_keys, script, file_path: file_path.to_owned() }
    }
}

/// The mapping that a list of (name, path) entries defines; a later entry
/// for a name overrides an earlier one.
pub open spec fn mapping_of(entries: Seq<(String, String)>) -> Map<Seq<char>, Seq<char>>
    decreases entries.len(),
{
    if entries.len() == 0 {
        Map::empty()
    } else {
        mapping_of(entries.drop_last()).insert(entries.last().0@, entries.last().1@)
    }
}

proof fn lemma_mapping_skips_later_names(entries: Seq<(String, String)>, i: int, name: Seq<char>)
    requires
        0 <= i <= entries.len(),
        forall|j: int| i <= j < entries.len() ==> (#[trigger] entries[j]).0@ != name,
    ensures
        mapping_of(entries).contains_key(name) == mapping_of(entries.take(i)).contains_key(name),
        mapping_of(entries).contains_key(name) ==> mapping_of(entries)[name] == mapping_of(
            entries.take(i),
        )[name],
    decreases entries.len(),
{
    if entries.len() > i {
        let last = entries.last();
        assert(entries[entries.len() - 1].0@ != name);
        assert(entries.drop_last().take(i) == entries.take(i));
        lemma_mapping_skips_later_names(entries.drop_last(), i, name);
    } else {
        assert(entries.take(i) == entries);
    }
}

/// A file being processed: its text, the include directives found in it
/// (byte position of the directive line, included path) and the files it
/// depends on.
#[derive(Debug)]
pub struct FileData {
    path: String,
    content: String,
    includes: Vec<(usize, String)>,
    dependencies: Vec<String>,
    is_include: bool,
}

/// Script loader with include support for Lua scripts
pub struct ScriptLoader {
    path_mapper: Vec<(String, String)>,
    command_cache: Vec<(String, Vec<CommandDefinition>)>,
    client_scripts: Vec<(usize, Vec<String>)>,
    root_path: String,
}

/// How a script name resolves: the path, or the mapping name that is missing.
pub open spec fn resolution(mappings: Map<Seq<char>, Seq<char>>, root: Seq<char>, name: Seq<char>) -> Result<Seq<char>, Seq<char>> {
    if name.len() > 0 && name[0] == '~' {
        Ok(root + name.skip(1))
    } else if name.len() > 0 && name[0] == '<' {
        match first_index_of(name, '>') {
            Some(p) => {
                let key = name.subrange(1, p);
                if mappings.contains_key(key) {
                    Ok(mappings[key] + name.skip(p + 1))
                } else {
                    Err(key)
                }
            },
            None => Ok(name),
        }
    } else {
        Ok(name)
    }
}

/// The first position of `c` in `s`, if any.
pub open spec fn first_index_of(s: Seq<char>, c: char) -> Option<int> {
    if exists|i: int| 0 <= i < s.len() && s[i] == c {
        Some(choose|i: int| 0 <= i < s.len() && s[i] == c && forall|j: int| 0 <= j < i ==> s[j] != c)
    } else {
        None
    }
}

/// Finds the first position of `c` in `s`.
pub fn find_char(s: &Vec<char>, c: char) -> (r: Option<usize>)
    ensures
        r matches Some(i) ==> first_index_of(s@, c) == Some(i as int) && i < s@.len() && s@[i as int] == c,
        r is None ==> first_index_of(s@, c) is None,
{
    let mut i: usize = 0;
    while i < s.len()
        invariant
            i <= s@.len(),
            forall|j: int| 0 <= j < i ==> s@[j] != c,
        decreases s@.len() - i,
    {
        if s[i] == c {
            let ghost w = choose|w: int| 0 <= w < s@.len() && s@[w] == c && forall|j: int| 0 <= j < w ==> s@[j] != c;
            assert(0 <= i < s@.len() && s@[i as int] == c && forall|j: int| 0 <= j < i ==> s@[j] != c);
            assert(w == i) by {
                if w < i {
                    assert(s@[w] != c);
                }
                if w > i {
                    assert(s@[i as int] != c);
                }
            }
            return Some(i);
        }
        i = i + 1;
    }
    None
}

/// `path` adjoined to the directory `base` as `Path::join` does on Unix: an
/// absolute `path` replaces `base`; otherwise a `/` separates the two unless
/// `base` is empty or already ends with one.
pub open spec fn joined_path(base: Seq<char>, path: Seq<char>) -> Seq<char> {
    if path.len() > 0 && path[0] == '/' {
        path
    } else if base.len() == 0 || base.last() == '/' {
        base + path
    } else {
        base + seq!['/'] + path
    }
}

/// Joins `path` onto the directory `base`, as `Path::join` does on Unix.
pub fn join_path(base: &str, path: &str) -> (res: String)
    ensures
        res@ == joined_path(base@, path@),
{
    let p = chars_of(path);
    if p.len() > 0 && p[0] == '/' {
        return path.to_owned();
    }
    let b = chars_of(base);
    let mut res = base.to_owned();
    if !(b.len() == 0 || b[b.len() - 1] == '/') {
        res.append("/");
        proof {
            assert(seq!['/'] == "/"@) by {
                reveal_strlit("/");
            }
        }
    }
    res.append(path);
    res
}

impl ScriptLoader {
    /// The path mappings, by name.
    pub closed spec fn mappings(&self) -> Map<Seq<char>, Seq<char>> {
        mapping_of(self.path_mapper@)
    }

    /// The project root directory that `~` stands for.
    pub closed spec fn root(&self) -> Seq<char> {
        self.root_path@
    }

    /// The commands cached for each directory, as a list of (directory, commands).
    pub closed spec fn cached(&self) -> Seq<(String, Vec<CommandDefinition>)> {
        self.command_cache@
    }

    /// Create a new script loader for the project root `root_path`, with the
    /// mappings `~` and `rootDir` to the root and `base` to `base_dir`.
    pub fn new(root_path: String, base_dir: String) -> (loader: Self)
        ensures
            loader.root() == root_path@,
            loader.mappings() == Map::<Seq<char>, Seq<char>>::empty().insert("~"@, root_path@).insert(
                "rootDir"@,
                root_path@,
            ).insert("base"@, base_dir@),
            loader.cached().len() == 0,
    {
        let mut path_mapper: Vec<(String, String)> = Vec::new();
        path_mapper.push(("~".to_owned(), root_path.clone()));
        path_mapper.push(("rootDir".to_owned(), root_path.clone()));
        path_mapper.push(("base".to_owned(), base_dir));
        proof {
            let e = path_mapper@;
            assert(e.drop_last().drop_last().drop_last() == Seq::<(String, String)>::empty());
            reveal_with_fuel(mapping_of, 4);
        }
        ScriptLoader {
            path_mapper,
            command_cache: Vec::new(),
            client_scripts: Vec::new(),
            root_path,
        }
    }

    /// The path mapped to `name`, if any.
    pub fn lookup_mapping(&self, name: &str) -> (r: Option<String>)
        ensures
            r matches Some(v) ==> self.mappings().contains_key(name@) && self.mappings()[name@] == v@,
            r is None ==> !self.mappings().contains_key(name@),
    {
        let key = name.to_owned();
        let mut i = self.path_mapper.len();
        while i > 0
            invariant
                i <= self.path_mapper@.len(),
                key@ == name@,
                forall|j: int| i <= j < self.path_mapper@.len() ==> (#[trigger] self.path_mapper@[j]).0@ != name@,
            decreases i,
        {
            if self.path_mapper[i - 1].0 == key {
                proof {
                    let e = self.path_mapper@;
                    lemma_mapping_skips_later_names(e, i as int, name@);
                    assert(e.take(i as int).drop_last() == e.take(i - 1));
                    assert(e.take(i as int).last() == e[i - 1]);
                }
                return Some(self.path_mapper[i - 1].1.clone());
            }
            i = i - 1;
        }
        proof {
            lemma_mapping_skips_later_names(self.path_mapper@, 0, name@);
            assert(self.path_mapper@.take(0) == Seq::<(String, String)>::empty());
        }
        None
    }

    /// Resolve a script path considering path mappings: a leading `~` stands
    /// for the project root, a leading `<name>` for the path mapped to `name`.
    /// Fails with `PathMappingNotFoundError` naming a mapping that is missing.
    pub fn resolve_path(&self, script_name: &str, stack: &[String]) -> (res: Result<String, BullRsError>)
        ensures
            match resolution(self.mappings(), self.root(), script_name@) {
                Ok(p) => res matches Ok(r) && r@ == p,
                Err(key) => res matches Err(BullRsError::PathMappingNotFoundError(k)) && k@ == key,
            },
    {
        let name = chars_of(script_name);
        if name.len() > 0 && name[0] == '~' {
            let rest = sub_string(&name, 1, name.len());
            let mut result = self.root_path.clone();
            result.append(rest.as_str());
            return Ok(result);
        }
        if name.len() > 0 && name[0] == '<' {
            if let Some(p) = find_char(&name, '>') {
                let key = sub_string(&name, 1, p);
                match self.lookup_mapping(key.as_str()) {
                    Some(mapped) => {
                        let rest = sub_string(&name, p + 1, name.len());
                        let mut result = mapped;
                        result.append(rest.as_str());
                        return Ok(result);
                    },
                    None => {
                        return Err(BullRsError::PathMappingNotFoundError(key));
                    },
                }
            }
        }
        Ok(script_name.to_owned())
    }

    /// Add a script path mapping `name` (without angle brackets) for
    /// `mapped_path`: a possibly mapped path is resolved first; any other one
    /// is taken relative to `current_dir`.
    pub fn add_path_mapping(&mut self, name: &str, mapped_path: &str, current_dir: &str) -> (res: Result<(), BullRsError>)
        ensures
            final(self).root() == old(self).root(),
            final(self).cached() == old(self).cached(),
            !possibly_mapped(mapped_path@) ==> res is Ok && final(self).mappings() == old(self).mappings().insert(
                name@,
                joined_path(current_dir@, mapped_path@),
            ),
            possibly_mapped(mapped_path@) ==> match resolution(old(self).mappings(), old(self).root(), mapped_path@) {
                Ok(p) => res is Ok && final(self).mappings() == old(self).mappings().insert(name@, p),
                Err(key) => res matches Err(BullRsError::PathMappingNotFoundError(k)) && k@ == key
                    && final(self).mappings() == old(self).mappings(),
            },
    {
        let resolved = if crate::utils::is_possibly_mapped_path(mapped_path) {
            match self.resolve_path(mapped_path, &[]) {
                Ok(r) => r,
                Err(e) => return Err(e),
            }
        } else {
            join_path(current_dir, mapped_path)
        };
        self.path_mapper.push((name.to_owned(), resolved));
        proof {
            assert(self.path_mapper@.drop_last() == old(self).path_mapper@);
        }
        Ok(())
    }
}

/// A mapping just added is what `<name>` resolves to: for a name without `>`,
/// `<name>rest` resolves to the mapped path followed by `rest`.
pub proof fn law_added_mapping_resolves(
    mappings: Map<Seq<char>, Seq<char>>,
    root: Seq<char>,
    name: Seq<char>,
    path: Seq<char>,
    rest: Seq<char>,
)
    requires
        forall|i: int| 0 <= i < name.len() ==> name[i] != '>',
    ensures
        resolution(mappings.insert(name, path), root, seq!['<'] + name + seq!['>'] + rest) == Ok::<
            Seq<char>,
            Seq<char>,
        >(path + rest),
{
    let s = seq!['<'] + name + seq!['>'] + rest;
    let p: int = name.len() as int + 1;
    assert(s[p] == '>');
    assert forall|j: int| 0 <= j < p implies s[j] != '>' by {
        if j > 0 {
            assert(s[j] == name[j - 1]);
        }
    }
    let w = choose|i: int| 0 <= i < s.len() && s[i] == '>' && forall|j: int| 0 <= j < i ==> s[j] != '>';
    assert(w == p) by {
        if w < p {
            assert(s[w] != '>');
        }
        if w > p {
            assert(s[p] != '>');
        }
    }
    assert(s.subrange(1, p) == name);
    assert(s.skip(p + 1) == rest);
}

/// A path outside any mapping (not starting with `~` or `<`) resolves to itself.
pub proof fn law_plain_path_resolves_to_itself(mappings: Map<Seq<char>, Seq<char>>, root: Seq<char>, name: Seq<char>)
    requires
        !possibly_mapped(name),
    ensures
        resolution(mappings, root, name) == Ok::<Seq<char>, Seq<char>>(name),
{
}

/// The include directives of a list of lines: each directive line with the
/// path it names, in line order.
pub open spec fn directives(lines: Seq<Seq<char>>) -> Seq<(Seq<char>, Seq<char>)>
    decreases lines.len(),
{
    if lines.len() == 0 {
        Seq::empty()
    } else {
        let prev = directives(lines.drop_last());
        match include_target(lines.last()) {
            Some(p) => prev.push((lines.last(), p)),
            None => prev,
        }
    }
}

/// The script file an include path names: the resolved path, given the
/// `lua` extension when it has none.
pub open spec fn include_file(mappings: Map<Seq<char>, Seq<char>>, root: Seq<char>, path: Seq<char>) -> Result<Seq<char>, Seq<char>> {
    match resolution(mappings, root, path) {
        Ok(r) => Ok(with_ext(r, "lua"@, path_extension(r))),
        Err(k) => Err(k),
    }
}

/// Whether `res` reports `expected`: the file, or the missing mapping.
pub open spec fn reports(res: Result<String, BullRsError>, expected: Result<Seq<char>, Seq<char>>) -> bool {
    match expected {
        Ok(f) => res matches Ok(x) && x@ == f,
        Err(k) => res matches Err(BullRsError::PathMappingNotFoundError(x)) && x@ == k,
    }
}

/// An include directive found in a script.
#[derive(Debug)]
pub struct IncludeDirective {
    /// Byte position of the first occurrence of the directive's line in the script
    pub position: usize,
    /// The path as written between the quotes
    pub path: String,
    /// The script file it names, or why it names none
    pub resolved: Result<String, BullRsError>,
}

/// What to do with one include of a file being interpolated.
#[derive(Debug)]
pub enum IncludePlan {
    /// The file was included already: replace the text `target` (the slice
    /// of the directive, when valid) by `placeholder`.
    AlreadyIncluded { target: Option<String>, placeholder: String },
    /// Replace `line` by the text of the file at `resolved_path`.
    Inline { resolved_path: String, line: String },
}

/// The text of a file whose includes are being interpolated, and the files
/// inlined so far.
pub struct Interpolation {
    text: String,
    processed: Vec<String>,
}

impl Interpolation {
    /// The text so far.
    pub closed spec fn text_view(&self) -> Seq<char> {
        self.text@
    }

    /// The files inlined so far, in order.
    pub closed spec fn processed_view(&self) -> Seq<Seq<char>> {
        texts(self.processed@)
    }

    /// The files inlined so far.
    pub fn processed(&self) -> (p: &Vec<String>)
        ensures
            texts(p@) == self.processed_view(),
    {
        &self.processed
    }

    /// Starts interpolating `content`, with the files `processed` already inlined.
    pub fn new(content: &str, processed: Vec<String>) -> (i: Self)
        ensures
            i.text_view() == content@,
            i.processed_view() == texts(processed@),
    {
        Interpolation { text: content.to_owned(), processed }
    }

    /// Applies the plan for one include: a repeated include has its directive
    /// text `target` replaced by the placeholder; an inlined one has its line
    /// replaced by `included`, the included file's text, and the file is
    /// recorded as inlined.
    pub fn apply_plan(&mut self, plan: IncludePlan, included: Option<String>)
        requires
            plan matches IncludePlan::AlreadyIncluded { target, placeholder } ==> target is Some,
            plan is Inline ==> included is Some,
        ensures
            match plan {
                IncludePlan::AlreadyIncluded { target, placeholder } => {
                    &&& final(self).text_view() == replaced(old(self).text_view(), target->0@, placeholder@)
                    &&& final(self).processed_view() == old(self).processed_view()
                },
                IncludePlan::Inline { resolved_path, line } => {
                    &&& final(self).text_view() == replaced(old(self).text_view(), line@, included->0@)
                    &&& final(self).processed_view() == old(self).processed_view().push(resolved_path@)
                },
            },
    {
        match plan {
            IncludePlan::AlreadyIncluded { target, placeholder } => {
                if let Some(t) = target {
                    self.text = replace_all(self.text.as_str(), t.as_str(), placeholder.as_str());
                }
            },
            IncludePlan::Inline { resolved_path, line } => {
                if let Some(text) = included {
                    let ghost before = self.processed@;
                    self.processed.push(resolved_path);
                    assert(texts(self.processed@) =~= texts(before).push(self.processed@.last()@));
                    self.text = replace_all(self.text.as_str(), line.as_str(), text.as_str());
                }
            },
        }
    }

    /// The interpolated script: the text without its leading blank lines,
    /// with the files inlined.
    pub fn finish(self) -> (r: (String, Vec<String>))
        ensures
            r.0@ == without_leading_blank_lines(self.text_view()),
            texts(r.1@) == self.processed_view(),
    {
        (remove_empty_lines(self.text.as_str()), self.processed)
    }
}

/// The placeholder left where an include is repeated.
pub open spec fn placeholder_text(path: Seq<char>) -> Seq<char> {
    "-- @include '"@ + path + "' (already included)"@
}

/// Line `n` of `content`, or nothing when there is no such line.
pub open spec fn nth_line(content: Seq<char>, n: nat) -> Seq<char> {
    if n < lines_of(content).len() {
        lines_of(content)[n as int]
    } else {
        Seq::empty()
    }
}

/// The text a repeated include replaces: the bytes of `content` from
/// `position` over the length of the path plus 12, when that slice is valid.
pub open spec fn repeated_target(content: Seq<char>, position: nat, path: Seq<char>) -> Option<Seq<char>> {
    let end = position + cap_usize(utf8_len(path)) + 12;
    if end > usize::MAX {
        None
    } else {
        byte_slice(content, position, end as nat)
    }
}

/// Whether the plan `plan` follows the rules for an include of `path` at
/// `position` in `content`, given the included file `file` and whether it
/// was processed already.
pub open spec fn plan_fits(plan: IncludePlan, content: Seq<char>, position: nat, path: Seq<char>, file: Seq<char>, seen: bool) -> bool {
    if seen {
        plan matches IncludePlan::AlreadyIncluded { target, placeholder } && placeholder@ == placeholder_text(path)
            && match repeated_target(content, position, path) {
                Some(t) => target matches Some(x) && x@ == t,
                None => target is None,
            }
    } else {
        plan matches IncludePlan::Inline { resolved_path, line } && resolved_path@ == file && line@ == nth_line(
            content,
            position,
        )
    }
}

/// The (position, path) entries of an include list.
pub open spec fn entries_view(v: Seq<(usize, String)>) -> Seq<(usize, Seq<char>)> {
    v.map_values(|e: (usize, String)| (e.0, e.1@))
}

/// The index of the entry for byte `position`, if there is one.
pub open spec fn entry_index(entries: Seq<(usize, Seq<char>)>, position: usize) -> Option<int> {
    if exists|i: int| 0 <= i < entries.len() && entries[i].0 == position {
        Some(choose|i: int| 0 <= i < entries.len() && entries[i].0 == position)
    } else {
        None
    }
}

/// The include entries after recording that the directive at byte
/// `position` includes `path`: an entry at that position is replaced, else
/// the entry is added at the end.
pub open spec fn with_entry(entries: Seq<(usize, Seq<char>)>, position: usize, path: Seq<char>) -> Seq<(usize, Seq<char>)> {
    match entry_index(entries, position) {
        Some(i) => entries.update(i, (position, path)),
        None => entries.push((position, path)),
    }
}

/// Recording an include lists it, and keeps every entry at another position.
pub proof fn law_recorded_include_is_listed(entries: Seq<(usize, Seq<char>)>, position: usize, path: Seq<char>)
    ensures
        with_entry(entries, position, path).contains((position, path)),
        forall|j: int|
            0 <= j < entries.len() && entries[j].0 != position ==> with_entry(entries, position, path).contains(
                #[trigger] entries[j],
            ),
        with_entry(entries, position, path).len() >= entries.len(),
{
    let r = with_entry(entries, position, path);
    match entry_index(entries, position) {
        Some(i) => {
            assert(r[i] == (position, path));
            assert forall|j: int|
                0 <= j < entries.len() && entries[j].0 != position implies r.contains(#[trigger] entries[j]) by {
                assert(j != i);
                assert(r[j] == entries[j]);
            }
        },
        None => {
            assert(r[entries.len() as int] == (position, path));
            assert forall|j: int|
                0 <= j < entries.len() && entries[j].0 != position implies r.contains(#[trigger] entries[j]) by {
                assert(r[j] == entries[j]);
            }
        },
    }
}

/// Finds the entry for byte `position` in a list where positions are distinct.
fn find_position_entry(v: &Vec<(usize, String)>, position: usize) -> (r: Option<usize>)
    requires
        forall|a: int, b: int| 0 <= a < b < v@.len() ==> v@[a].0 != v@[b].0,
    ensures
        r matches Some(k) ==> entry_index(entries_view(v@), position) == Some(k as int) && k < v@.len(),
        r is None ==> entry_index(entries_view(v@), position) is None,
{
    let ghost m = entries_view(v@);
    let mut i: usize = 0;
    while i < v.len()
        invariant
            i <= v@.len(),
            forall|a: int, b: int| 0 <= a < b < v@.len() ==> v@[a].0 != v@[b].0,
            m == entries_view(v@),
            forall|j: int| 0 <= j < i ==> v@[j].0 != position,
        decreases v@.len() - i,
    {
        if v[i].0 == position {
            proof {
                assert(m[i as int].0 == position);
                let c = choose|k: int| 0 <= k < m.len() && m[k].0 == position;
                assert(c == i) by {
                    if c != i {
                        assert(m[c].0 == v@[c].0);
                    }
                }
            }
            return Some(i);
        }
        i = i + 1;
    }
    proof {
        assert forall|k: int| 0 <= k < m.len() implies m[k].0 != position by {
            assert(m[k].0 == v@[k].0);
        }
    }
    None
}

impl Clone for FileData {
    fn clone(&self) -> (c: Self)
        ensures
            c.path_view() == self.path_view(),
            c.content_view() == self.content_view(),
            c.include_entries() == self.include_entries(),
            c.dependency_list() == self.dependency_list(),
            c.is_include_file() == self.is_include_file(),
    {
        proof {
            use_type_invariant(self);
        }
        let mut includes: Vec<(usize, String)> = Vec::new();
        let mut i: usize = 0;
        while i < self.includes.len()
            invariant
                i <= self.includes@.len(),
                forall|a: int, b: int| 0 <= a < b < self.includes@.len() ==> self.includes@[a].0 != self.includes@[b].0,
                includes@.len() == i,
                forall|k: int| 0 <= k < i ==> (#[trigger] includes@[k]).0 == self.includes@[k].0 && includes@[k].1@ == self.includes@[k].1@,
            decreases self.includes@.len() - i,
        {
            let p = self.includes[i].0;
            let t = self.includes[i].1.clone();
            includes.push((p, t));
            i = i + 1;
        }
        let mut dependencies: Vec<String> = Vec::new();
        let mut j: usize = 0;
        while j < self.dependencies.len()
            invariant
                j <= self.dependencies@.len(),
                dependencies@.len() == j,
                forall|k: int| 0 <= k < j ==> (#[trigger] dependencies@[k])@ == self.dependencies@[k]@,
            decreases self.dependencies@.len() - j,
        {
            dependencies.push(self.dependencies[j].clone());
            j = j + 1;
        }
        let c = FileData {
            path: self.path.clone(),
            content: self.content.clone(),
            includes,
            dependencies,
            is_include: self.is_include,
        };
        assert(c.include_entries() =~= self.include_entries());
        assert(c.dependency_list() =~= self.dependency_list());
        c
    }
}

impl FileData {
    /// Positions occur at most once in the include list.
    #[verifier::type_invariant]
    spec fn positions_distinct(&self) -> bool {
        forall|i: int, j: int|
            0 <= i < j < self.includes@.len() ==> self.includes@[i].0 != self.includes@[j].0
    }

    pub closed spec fn path_view(&self) -> Seq<char> {
        self.path@
    }

    pub closed spec fn content_view(&self) -> Seq<char> {
        self.content@
    }

    /// The include directives recorded, as (byte position, path), each
    /// position once, in the order first recorded.
    pub closed spec fn include_entries(&self) -> Seq<(usize, Seq<char>)> {
        entries_view(self.includes@)
    }

    pub closed spec fn dependency_list(&self) -> Seq<Seq<char>> {
        self.dependencies@.map_values(|d: String| d@)
    }

    pub closed spec fn is_include_file(&self) -> bool {
        self.is_include
    }

    /// A file read from `path` with text `content`, without includes yet.
    pub fn new(path: String, content: String, is_include: bool) -> (f: Self)
        ensures
            f.path_view() == path@,
            f.content_view() == content@,
            f.include_entries() == Seq::<(usize, Seq<char>)>::empty(),
            f.dependency_list() == Seq::<Seq<char>>::empty(),
            f.is_include_file() == is_include,
    {
        let f = FileData { path, content, includes: Vec::new(), dependencies: Vec::new(), is_include };
        assert(f.include_entries() =~= Seq::<(usize, Seq<char>)>::empty());
        assert(f.dependency_list() =~= Seq::<Seq<char>>::empty());
        f
    }

    /// The file's path.
    pub fn path(&self) -> (p: &String)
        ensures
            p@ == self.path_view(),
    {
        &self.path
    }

    /// The file's text.
    pub fn content(&self) -> (c: &String)
        ensures
            c@ == self.content_view(),
    {
        &self.content
    }

    /// Whether the file is included by another rather than a command script.
    pub fn is_include(&self) -> (b: bool)
        ensures
            b == self.is_include_file(),
    {
        self.is_include
    }

    /// The include directives recorded: (byte position, path).
    pub fn includes(&self) -> (v: &Vec<(usize, String)>)
        ensures
            entries_view(v@) == self.include_entries(),
            forall|i: int, j: int| 0 <= i < j < v@.len() ==> v@[i].0 != v@[j].0,
    {
        proof {
            use_type_invariant(self);
        }
        &self.includes
    }

    /// The files this one depends on, in discovery order.
    pub fn dependencies(&self) -> (d: &Vec<String>)
        ensures
            d@.map_values(|x: String| x@) == self.dependency_list(),
    {
        &self.dependencies
    }

    /// Records that the directive line at byte `position` includes `path`;
    /// a directive recorded at the same position before is replaced.
    pub fn record_include(&mut self, position: usize, path: String)
        ensures
            final(self).path_view() == old(self).path_view(),
            final(self).content_view() == old(self).content_view(),
            final(self).dependency_list() == old(self).dependency_list(),
            final(self).is_include_file() == old(self).is_include_file(),
            final(self).include_entries() == with_entry(old(self).include_entries(), position, path@),
            match entry_index(old(self).include_entries(), position) {
                Some(i) => final(self).include_entries() == old(self).include_entries().update(i, (position, path@)),
                None => final(self).include_entries() == old(self).include_entries().push((position, path@)),
            },
    {
        proof {
            use_type_invariant(&*self);
        }
        let ghost old_entries = self.include_entries();
        let mut includes: Vec<(usize, String)> = Vec::new();
        std::mem::swap(&mut includes, &mut self.includes);
        let ghost before = includes@;
        assert(entries_view(before) == old_entries);
        assert(old_entries == old(self).include_entries());
        match find_position_entry(&includes, position) {
            Some(i) => {
                assert(entry_index(old_entries, position) == Some(i as int));
                includes.set(i, (position, path));
                proof {
                    assert(entries_view(includes@) =~= old_entries.update(
                        i as int,
                        (position, path@),
                    ));
                    assert forall|a: int, b: int| 0 <= a < b < includes@.len() implies includes@[a].0
                        != includes@[b].0 by {
                        assert(before[a].0 != before[b].0);
                    }
                }
            },
            None => {
                assert(entry_index(old_entries, position) is None);
                includes.push((position, path));
                proof {
                    assert(entries_view(includes@) =~= old_entries.push(
                        (position, path@),
                    ));
                    assert forall|a: int, b: int| 0 <= a < b < includes@.len() implies includes@[a].0
                        != includes@[b].0 by {
                        if b < before.len() {
                            assert(before[a].0 != before[b].0);
                        } else {
                            assert(old_entries[a].0 == before[a].0);
                        }
                    }
                }
            },
        }
        self.includes = includes;
    }

    /// Records a dependency on the included file `resolved`, followed by the
    /// files that it depends on.
    pub fn add_dependency(&mut self, resolved: String, included_dependencies: &Vec<String>)
        ensures
            final(self).path_view() == old(self).path_view(),
            final(self).content_view() == old(self).content_view(),
            final(self).include_entries() == old(self).include_entries(),
            final(self).is_include_file() == old(self).is_include_file(),
            final(self).dependency_list() == old(self).dependency_list().push(resolved@) + included_dependencies@.map_values(
                |x: String| x@,
            ),
    {
        proof {
            use_type_invariant(&*self);
        }
        let ghost old_deps = self.dependency_list();
        let mut deps: Vec<String> = Vec::new();
        std::mem::swap(&mut deps, &mut self.dependencies);
        deps.push(resolved);
        let ghost base = deps@.map_values(|x: String| x@);
        assert(base =~= old_deps.push(resolved@));
        let mut k: usize = 0;
        while k < included_dependencies.len()
            invariant
                k <= included_dependencies@.len(),
                deps@.map_values(|x: String| x@) == base + included_dependencies@.take(k as int).map_values(
                    |x: String| x@,
                ),
            decreases included_dependencies@.len() - k,
        {
            let ghost prev = deps@;
            deps.push(included_dependencies[k].clone());
            proof {
                assert(deps@.map_values(|x: String| x@) =~= prev.map_values(|x: String| x@).push(
                    included_dependencies@[k as int]@,
                ));
                assert(included_dependencies@.take(k + 1).map_values(|x: String| x@) =~= included_dependencies@.take(
                    k as int,
                ).map_values(|x: String| x@).push(included_dependencies@[k as int]@));
                assert(deps@.map_values(|x: String| x@) =~= base + included_dependencies@.take(k + 1).map_values(
                    |x: String| x@,
                ));
            }
            k = k + 1;
        }
        assert(included_dependencies@.take(included_dependencies@.len() as int) == included_dependencies@);
        self.dependencies = deps;
    }
}

/// Whether `v` holds a string with view `x`.
pub open spec fn holds_text(v: Seq<String>, x: Seq<char>) -> bool {
    exists|i: int| 0 <= i < v.len() && v[i]@ == x
}

/// Checks whether `v` holds a string equal to `x`.
pub(crate) fn contains_text(v: &Vec<String>, x: &String) -> (b: bool)
    ensures
        b == holds_text(v@, x@),
{
    let mut i: usize = 0;
    while i < v.len()
        invariant
            i <= v@.len(),
            forall|j: int| 0 <= j < i ==> v@[j]@ != x@,
        decreases v@.len() - i,
    {
        if v[i] == *x {
            return true;
        }
        i = i + 1;
    }
    false
}

/// Whether `path` names a Lua script: its extension is `lua`.
pub open spec fn is_lua_path(path: Seq<char>) -> bool {
    path_extension(path) == Some("lua"@)
}

/// The Lua scripts among `paths`, in order.
pub open spec fn lua_paths(paths: Seq<Seq<char>>) -> Seq<Seq<char>>
    decreases paths.len(),
{
    if paths.len() == 0 {
        Seq::empty()
    } else if is_lua_path(paths.last()) {
        lua_paths(paths.drop_last()).push(paths.last())
    } else {
        lua_paths(paths.drop_last())
    }
}

/// The text views of a list of strings.
pub open spec fn texts(v: Seq<String>) -> Seq<Seq<char>> {
    v.map_values(|x: String| x@)
}

/// Keeps the entries whose extension (`extensions[i]` for `paths[i]`) is
/// `lua`, in order; fails with `GeneralError` when there are none.
pub fn keep_lua_files(paths: Vec<String>, extensions: &Vec<Option<String>>) -> (res: Result<Vec<String>, BullRsError>)
    requires
        extensions@.len() == paths@.len(),
    ensures
        res is Ok <==> lua_selection(texts(paths@), extension_views(extensions@)).len() > 0,
        res matches Ok(v) ==> texts(v@) == lua_selection(texts(paths@), extension_views(extensions@)),
        res matches Err(e) ==> (e matches BullRsError::GeneralError(m) && m@ == "No .lua files found!"@),
{
    let mut out: Vec<String> = Vec::new();
    let mut i: usize = 0;
    let lua = "lua".to_owned();
    while i < paths.len()
        invariant
            i <= paths@.len(),
            extensions@.len() == paths@.len(),
            lua@ == "lua"@,
            texts(out@) == lua_selection(texts(paths@.take(i as int)), extension_views(extensions@.take(i as int))),
        decreases paths@.len() - i,
    {
        let keep = match &extensions[i] {
            Some(e) => *e == lua,
            None => false,
        };
        proof {
            assert(texts(paths@.take(i + 1)).drop_last() == texts(paths@.take(i as int)));
            assert(texts(paths@.take(i + 1)).last() == paths@[i as int]@);
            assert(extension_views(extensions@.take(i + 1)).drop_last() == extension_views(extensions@.take(i as int)));
            assert(extension_views(extensions@.take(i + 1)).last() == extension_views(extensions@)[i as int]);
        }
        if keep {
            let ghost prev = out@;
            out.push(paths[i].clone());
            assert(texts(out@) == texts(prev).push(paths@[i as int]@));
        }
        i = i + 1;
    }
    assert(paths@.take(paths@.len() as int) == paths@);
    assert(extensions@.take(extensions@.len() as int) == extensions@);
    if out.len() == 0 {
        return Err(BullRsError::GeneralError("No .lua files found!".to_owned()));
    }
    Ok(out)
}

/// The texts of a list of optional strings.
pub open spec fn extension_views(v: Seq<Option<String>>) -> Seq<Option<Seq<char>>> {
    v.map_values(|o: Option<String>| match o {
        Some(x) => Some(x@),
        None => None,
    })
}

/// The paths whose extension is `lua`, in order.
pub open spec fn lua_selection(paths: Seq<Seq<char>>, extensions: Seq<Option<Seq<char>>>) -> Seq<Seq<char>>
    decreases paths.len(),
{
    if paths.len() == 0 {
        Seq::empty()
    } else if extensions.last() == Some("lua"@) {
        lua_selection(paths.drop_last(), extensions.drop_last()).push(paths.last())
    } else {
        lua_selection(paths.drop_last(), extensions.drop_last())
    }
}

/// Keeps the Lua scripts among the entries of a directory, in order; fails
/// with `GeneralError` when there are none.
pub fn select_lua_files(paths: Vec<String>) -> (res: Result<Vec<String>, BullRsError>)
    ensures
        lua_paths(texts(paths@)).len() == 0 ==> (res matches Err(BullRsError::GeneralError(m)) && m@
            == "No .lua files found!"@),
        lua_paths(texts(paths@)).len() > 0 ==> (res matches Ok(v) && texts(v@) == lua_paths(texts(paths@))),
{
    let mut extensions: Vec<Option<String>> = Vec::new();
    let mut i: usize = 0;
    while i < paths.len()
        invariant
            i <= paths@.len(),
            extensions@.len() == i,
            forall|k: int| 0 <= k < i ==> (#[trigger] extension_views(extensions@)[k]) == path_extension(paths@[k]@),
        decreases paths@.len() - i,
    {
        let e = crate::utils::path_extension_of(paths[i].as_str());
        let ghost prev = extensions@;
        extensions.push(e);
        proof {
            assert forall|k: int| 0 <= k < i + 1 implies (#[trigger] extension_views(extensions@)[k]) == path_extension(
                paths@[k]@,
            ) by {
                if k < i {
                    assert(extension_views(extensions@)[k] == extension_views(prev)[k]);
                }
            }
        }
        i = i + 1;
    }
    proof {
        lemma_lua_selection_is_lua_paths(texts(paths@), extension_views(extensions@));
    }
    keep_lua_files(paths, &extensions)
}

proof fn lemma_lua_selection_is_lua_paths(paths: Seq<Seq<char>>, extensions: Seq<Option<Seq<char>>>)
    requires
        paths.len() == extensions.len(),
        forall|k: int| 0 <= k < paths.len() ==> extensions[k] == path_extension(paths[k]),
    ensures
        lua_selection(paths, extensions) == lua_paths(paths),
    decreases paths.len(),
{
    if paths.len() > 0 {
        lemma_lua_selection_is_lua_paths(paths.drop_last(), extensions.drop_last());
    }
}

/// The commands cached for directory `dir` in a cache list, the latest entry
/// for a directory counting.
pub open spec fn cache_lookup(cache: Seq<(String, Vec<CommandDefinition>)>, dir: Seq<char>) -> Option<Seq<CommandDefinition>>
    decreases cache.len(),
{
    if cache.len() == 0 {
        None
    } else if cache.last().0@ == dir {
        Some(cache.last().1@)
    } else {
        cache_lookup(cache.drop_last(), dir)
    }
}

/// The script directories marked as loaded for a client, in a registry list.
pub open spec fn loaded_paths(registry: Seq<(usize, Vec<String>)>, client: usize) -> Set<Seq<char>> {
    Set::new(|p: Seq<char>| exists|i: int, j: int| 0 <= i < registry.len() && registry[i].0 == client
        && 0 <= j < registry[i].1@.len() && registry[i].1@[j]@ == p)
}

impl ScriptLoader {
    /// The script directories marked as loaded for client `client`.
    pub closed spec fn loaded_for(&self, client: usize) -> Set<Seq<char>> {
        loaded_paths(self.client_scripts@, client)
    }

    /// Whether `res` lists the include directives of `content`, in line
    /// order: for each directive line, the byte position where that line first
    /// occurs, the path it names and the script file that path resolves to.
    pub open spec fn scan_of(&self, content: Seq<char>, res: Seq<IncludeDirective>) -> bool {
        &&& res.len() == directives(lines_of(content)).len()
        &&& forall|i: int| 0 <= i < res.len() ==> {
            let (line, path) = #[trigger] directives(lines_of(content))[i];
            &&& res[i].path@ == path
            &&& res[i].position == find_position(content, line)
            &&& reports(res[i].resolved, include_file(self.mappings(), self.root(), path))
        }
    }

    /// The include directives of `content`, in line order: for each line that
    /// is a directive, the byte position where that line first occurs, the
    /// path it names and the script file that path resolves to.
    pub fn scan_includes(&self, content: &str) -> (res: Vec<IncludeDirective>)
        ensures
            self.scan_of(content@, res@),
            res@.len() == directives(lines_of(content@)).len(),
            forall|i: int| 0 <= i < res@.len() ==> {
                let (line, path) = #[trigger] directives(lines_of(content@))[i];
                &&& res@[i].path@ == path
                &&& res@[i].position == find_position(content@, line)
                &&& reports(res@[i].resolved, include_file(self.mappings(), self.root(), path))
            },
    {
        let chars = chars_of(content);
        let lines = split_lines(&chars);
        let ghost ls = lines_of(content@);
        let mut out: Vec<IncludeDirective> = Vec::new();
        let mut k: usize = 0;
        while k < lines.len()
            invariant
                chars@ == content@,
                views(lines@) == ls,
                ls == lines_of(content@),
                k <= lines@.len(),
                out@.len() == directives(ls.take(k as int)).len(),
                forall|i: int| 0 <= i < out@.len() ==> {
                    let (line, path) = #[trigger] directives(ls.take(k as int))[i];
                    &&& out@[i].path@ == path
                    &&& out@[i].position == find_position(content@, line)
                    &&& reports(out@[i].resolved, include_file(self.mappings(), self.root(), path))
                },
            decreases lines@.len() - k,
        {
            let ghost before = directives(ls.take(k as int));
            proof {
                assert(ls.take(k + 1).drop_last() == ls.take(k as int));
                assert(ls.take(k + 1).last() == lines@[k as int]@);
            }
            match parse_include_directive(&lines[k]) {
                Some(p) => {
                    let path = string_from(p.as_slice());
                    let position = find_byte_position(&chars, &lines[k]);
                    let resolved = match self.resolve_path(path.as_str(), &[]) {
                        Ok(r) => Ok(ensure_ext(r.as_str(), "lua")),
                        Err(e) => Err(e),
                    };
                    out.push(IncludeDirective { position, path, resolved });
                    proof {
                        assert(directives(ls.take(k + 1)) == before.push((lines@[k as int]@, p@)));
                    }
                },
                None => {
                    proof {
                        assert(directives(ls.take(k + 1)) == before);
                    }
                },
            }
            k = k + 1;
        }
        assert(ls.take(lines@.len() as int) == ls);
        out
    }

    /// The plan for the include of `include_path` recorded at byte
    /// `position` of `content`, given the files already included: a file
    /// included before is replaced by a placeholder, any other is inlined in
    /// place of line number `position`. Fails with `PathMappingNotFoundError`
    /// when the path names a missing mapping.
    pub fn plan_include(&self, content: &str, position: usize, include_path: &str, processed: &Vec<String>) -> (res: Result<IncludePlan, BullRsError>)
        ensures
            match include_file(self.mappings(), self.root(), include_path@) {
                Ok(file) => res matches Ok(plan) && plan_fits(
                    plan,
                    content@,
                    position as nat,
                    include_path@,
                    file,
                    holds_text(processed@, file),
                ),
                Err(k) => res matches Err(BullRsError::PathMappingNotFoundError(x)) && x@ == k,
            },
    {
        let resolved = match self.resolve_path(include_path, &[]) {
            Ok(r) => ensure_ext(r.as_str(), "lua"),
            Err(e) => return Err(e),
        };
        let chars = chars_of(content);
        if contains_text(processed, &resolved) {
            let mut placeholder = "-- @include '".to_owned();
            placeholder.append(include_path);
            placeholder.append("' (already included)");
            let path_chars = chars_of(include_path);
            let len = utf8_length(&path_chars);
            let target = if position > usize::MAX - 12 || len > usize::MAX - 12 - position {
                None
            } else {
                match slice_bytes(&chars, position, position + len + 12) {
                    Some(t) => Some(string_from(t.as_slice())),
                    None => None,
                }
            };
            Ok(IncludePlan::AlreadyIncluded { target, placeholder })
        } else {
            let lines = split_lines(&chars);
            let line = if position < lines.len() {
                string_from(lines[position].as_slice())
            } else {
                String::new()
            };
            Ok(IncludePlan::Inline { resolved_path: resolved, line })
        }
    }

    /// The commands cached for directory `dir`, if any.
    pub fn cached_commands(&self, dir: &str) -> (r: Option<Vec<CommandDefinition>>)
        ensures
            match cache_lookup(self.cached(), dir@) {
                Some(c) => r matches Some(v) && v@ == c,
                None => r is None,
            },
    {
        let key = dir.to_owned();
        let mut i = self.command_cache.len();
        assert(self.command_cache@.take(i as int) == self.command_cache@);
        while i > 0
            invariant
                i <= self.command_cache@.len(),
                key@ == dir@,
                cache_lookup(self.command_cache@, dir@) == cache_lookup(self.command_cache@.take(i as int), dir@),
            decreases i,
        {
            let ghost t = self.command_cache@.take(i as int);
            assert(t.drop_last() == self.command_cache@.take(i - 1));
            if self.command_cache[i - 1].0 == key {
                let v = self.command_cache[i - 1].1.clone();
                proof {
                    assert(v@ =~= t.last().1@);
                }
                return Some(v);
            }
            i = i - 1;
        }
        None
    }

    /// Caches `commands` as the commands of directory `dir`.
    pub fn cache_commands(&mut self, dir: &str, commands: Vec<CommandDefinition>)
        ensures
            final(self).mappings() == old(self).mappings(),
            final(self).root() == old(self).root(),
            cache_lookup(final(self).cached(), dir@) == Some(commands@),
            forall|d: Seq<char>| d != dir@ ==> cache_lookup(final(self).cached(), d) == cache_lookup(old(self).cached(), d),
    {
        self.command_cache.push((dir.to_owned(), commands));
        proof {
            assert(self.command_cache@.drop_last() == old(self).command_cache@);
        }
    }

    /// Clear the command cache
    pub fn clear_cache(&mut self)
        ensures
            final(self).mappings() == old(self).mappings(),
            final(self).root() == old(self).root(),
            final(self).cached().len() == 0,
            forall|c: usize| final(self).loaded_for(c) == old(self).loaded_for(c),
    {
        self.command_cache = Vec::new();
    }

    /// Marks directory `pathname` as loaded for client `client`, answering
    /// whether it had not been loaded for that client before.
    pub fn mark_loaded(&mut self, client: usize, pathname: &str) -> (needed: bool)
        ensures
            needed == !old(self).loaded_for(client).contains(pathname@),
            final(self).loaded_for(client) == old(self).loaded_for(client).insert(pathname@),
            forall|c: usize| c != client ==> final(self).loaded_for(c) == old(self).loaded_for(c),
            final(self).mappings() == old(self).mappings(),
            final(self).root() == old(self).root(),
            final(self).cached() == old(self).cached(),
    {
        let name = pathname.to_owned();
        let mut i: usize = 0;
        let mut found = false;
        while i < self.client_scripts.len()
            invariant
                i <= self.client_scripts@.len(),
                name@ == pathname@,
                found == exists|a: int, j: int| 0 <= a < i && self.client_scripts@[a].0 == client
                    && 0 <= j < self.client_scripts@[a].1@.len() && self.client_scripts@[a].1@[j]@ == pathname@,
            decreases self.client_scripts@.len() - i,
        {
            if self.client_scripts[i].0 == client {
                if contains_text(&self.client_scripts[i].1, &name) {
                    found = true;
                }
            }
            i = i + 1;
        }
        let mut entry: Vec<String> = Vec::new();
        entry.push(name);
        self.client_scripts.push((client, entry));
        proof {
            let old_reg = old(self).client_scripts@;
            let reg = self.client_scripts@;
            assert(reg.drop_last() == old_reg);
            assert(loaded_paths(reg, client) =~= loaded_paths(old_reg, client).insert(pathname@)) by {
                assert(reg[reg.len() - 1].1@[0]@ == pathname@);
                assert forall|p: Seq<char>| loaded_paths(reg, client).contains(p) implies loaded_paths(
                    old_reg,
                    client,
                ).insert(pathname@).contains(p) by {
                    let (a, j) = choose|a: int, j: int| 0 <= a < reg.len() && reg[a].0 == client && 0 <= j
                        < reg[a].1@.len() && reg[a].1@[j]@ == p;
                    if a < old_reg.len() {
                        assert(old_reg[a] == reg[a]);
                    }
                }
                assert forall|p: Seq<char>| loaded_paths(old_reg, client).contains(p) implies loaded_paths(
                    reg,
                    client,
                ).contains(p) by {
                    let (a, j) = choose|a: int, j: int| 0 <= a < old_reg.len() && old_reg[a].0 == client && 0
                        <= j < old_reg[a].1@.len() && old_reg[a].1@[j]@ == p;
                    assert(reg[a] == old_reg[a]);
                }
            }
            assert forall|c: usize| c != client implies loaded_paths(reg, c) =~= loaded_paths(old_reg, c) by {
                assert forall|p: Seq<char>| loaded_paths(reg, c).contains(p) implies loaded_paths(old_reg, c).contains(p) by {
                    let (a, j) = choose|a: int, j: int| 0 <= a < reg.len() && reg[a].0 == c && 0 <= j
                        < reg[a].1@.len() && reg[a].1@[j]@ == p;
                    assert(a < old_reg.len());
                    assert(old_reg[a] == reg[a]);
                }
                assert forall|p: Seq<char>| loaded_paths(old_reg, c).contains(p) implies loaded_paths(reg, c).contains(p) by {
                    let (a, j) = choose|a: int, j: int| 0 <= a < old_reg.len() && old_reg[a].0 == c && 0
                        <= j < old_reg[a].1@.len() && old_reg[a].1@[j]@ == p;
                    assert(reg[a] == old_reg[a]);
                }
            }
        }
        !found
    }
}

} // verus!
