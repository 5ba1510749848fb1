//! Project tooling on text: reading package and dependency names from
//! manifests, component types from TOML resources, and the checks and
//! reports built on them.
use vstd::prelude::*;

use crate::scan::{
    before_char, chars_subrange, contains_exec, contains_text, ends_with, ends_with_exec,
    find_char, first_from, lemma_find_char, lemma_first_from, lines_of, spec_before_char,
    spec_find_char, spec_first_from, spec_lines, spec_split_once, spec_trim, split_once,
    starts_with, starts_with_exec, trim,
};
use crate::string_lists::{
    extend_unique, insert_sorted, spec_extend_unique, strictly_sorted, views,
};
use crate::text::{chars_equal, chars_of, string_from_chars};

verus! {

/// A line without its `#` comment and surrounding white space.
pub open spec fn spec_clean_line(raw: Seq<char>) -> Seq<char> {
    spec_trim(spec_before_char(raw, '#'))
}

/// A line that opens a TOML section: it starts with `[` and ends with `]`.
pub open spec fn is_section_line(line: Seq<char>) -> bool {
    line.len() > 0 && line[0] == '[' && line.last() == ']'
}

/// The text without leading characters equal to `a` or `b`.
pub open spec fn spec_strip_start(s: Seq<char>, a: char, b: char) -> Seq<char>
    decreases s.len(),
{
    if s.len() > 0 && (s[0] == a || s[0] == b) {
        spec_strip_start(s.drop_first(), a, b)
    } else {
        s
    }
}

/// The text without trailing characters equal to `a` or `b`.
pub open spec fn spec_strip_end(s: Seq<char>, a: char, b: char) -> Seq<char>
    decreases s.len(),
{
    if s.len() > 0 && (s.last() == a || s.last() == b) {
        spec_strip_end(s.drop_last(), a, b)
    } else {
        s
    }
}

/// The text without leading or trailing characters equal to `a` or `b`, as
/// `str::trim_matches` with those characters gives it.
pub open spec fn spec_strip_both(s: Seq<char>, a: char, b: char) -> Seq<char> {
    spec_strip_end(spec_strip_start(s, a, b), a, b)
}

/// The text between a leading `"` and the next `"`.
pub open spec fn spec_parse_quoted(value: Seq<char>) -> Option<Seq<char>> {
    if value.len() > 0 && value[0] == '"' {
        match spec_find_char(value.drop_first(), '"') {
            Some(end) => Some(value.drop_first().take(end)),
            None => None,
        }
    } else {
        None
    }
}

/// The line without its comment and surrounding white space.
pub fn clean_line(raw: &[char]) -> (line: Vec<char>)
    ensures
        line@ == spec_clean_line(raw@),
{
    let before = before_char(raw, '#');
    trim(before.as_slice())
}

/// Whether the line opens a TOML section.
pub fn section_line(line: &[char]) -> (section: bool)
    ensures
        section == is_section_line(line@),
{
    line.len() > 0 && line[0] == '[' && line[line.len() - 1] == ']'
}

proof fn lemma_strip_start_skip(s: Seq<char>, a: char, b: char, i: int)
    requires
        0 <= i <= s.len(),
        forall|j: int| 0 <= j < i ==> s[j] == a || s[j] == b,
    ensures
        spec_strip_start(s, a, b) == spec_strip_start(s.skip(i), a, b),
    decreases i,
{
    if i > 0 {
        assert(s.drop_first().skip(i - 1) =~= s.skip(i));
        lemma_strip_start_skip(s.drop_first(), a, b, i - 1);
    } else {
        assert(s.skip(0) =~= s);
    }
}

proof fn lemma_strip_end_take(s: Seq<char>, a: char, b: char, i: int)
    requires
        0 <= i <= s.len(),
        forall|j: int| i <= j < s.len() ==> s[j] == a || s[j] == b,
    ensures
        spec_strip_end(s, a, b) == spec_strip_end(s.take(i), a, b),
    decreases s.len() - i,
{
    if i < s.len() {
        assert(s.drop_last().take(i) =~= s.take(i));
        lemma_strip_end_take(s.drop_last(), a, b, i);
    } else {
        assert(s.take(i) =~= s);
    }
}

/// The text without leading or trailing characters equal to `a` or `b`.
pub fn strip_both(s: &[char], a: char, b: char) -> (stripped: Vec<char>)
    ensures
        stripped@ == spec_strip_both(s@, a, b),
{
    let mut start: usize = 0;
    while start < s.len() && (s[start] == a || s[start] == b)
        invariant
            0 <= start <= s@.len(),
            forall|j: int| 0 <= j < start ==> s@[j] == a || s@[j] == b,
        decreases s@.len() - start,
    {
        start = start + 1;
    }
    proof {
        lemma_strip_start_skip(s@, a, b, start as int);
    }
    let ghost rest = s@.skip(start as int);
    let mut end: usize = s.len();
    while end > start && (s[end - 1] == a || s[end - 1] == b)
        invariant
            start <= end <= s@.len(),
            rest == s@.skip(start as int),
            forall|j: int| end <= j < s@.len() ==> s@[j] == a || s@[j] == b,
        decreases end - start,
    {
        end = end - 1;
    }
    proof {
        lemma_strip_end_take(rest, a, b, end - start);
        assert(rest.take(end - start) =~= s@.subrange(start as int, end as int));
        let t = rest.take(end - start);
        if t.len() > 0 {
            assert(t.last() == s@[end - 1]);
        }
        if rest.len() > 0 {
            assert(rest[0] == s@[start as int]);
        }
    }
    chars_subrange(s, start, end)
}

/// The text between a leading `"` and the next `"`, if the value is quoted.
pub fn parse_quoted_string(value: &str) -> (parsed: Option<String>)
    ensures
        match parsed {
            Some(text) => spec_parse_quoted(value@) == Some(text@),
            None => spec_parse_quoted(value@) is None,
        },
{
    let chars = chars_of(value);
    if chars.len() == 0 || chars[0] != '"' {
        return None;
    }
    let rest = chars_subrange(chars.as_slice(), 1, chars.len());
    assert(rest@ =~= value@.drop_first());
    match find_char(rest.as_slice(), '"') {
        Some(end) => {
            proof {
                lemma_find_char(rest@, '"');
            }
            let text = chars_subrange(rest.as_slice(), 0, end);
            assert(text@ =~= rest@.take(end as int));
            Some(string_from_chars(text.as_slice()))
        },
        None => None,
    }
}

/// Whether the text equals the literal.
fn text_is(text: &[char], literal: &str) -> (same: bool)
    ensures
        same == (text@ == literal@),
{
    let expected = chars_of(literal);
    chars_equal(text, expected.as_slice())
}

// ---------------------------------------------------------------------------
// Package name

/// The package name that the lines give from the first `name` key of the
/// `[package]` section, reading on while `in_package` says whether the
/// current section is `[package]`.
pub open spec fn spec_package_name_in(lines: Seq<Seq<char>>, in_package: bool) -> Option<
    Seq<char>,
>
    decreases lines.len(),
{
    if lines.len() == 0 {
        None
    } else {
        let line = spec_clean_line(lines[0]);
        let rest = lines.drop_first();
        if line.len() == 0 {
            spec_package_name_in(rest, in_package)
        } else if is_section_line(line) {
            spec_package_name_in(rest, line == "[package]"@)
        } else if !in_package {
            spec_package_name_in(rest, in_package)
        } else {
            match spec_split_once(line, '=') {
                None => spec_package_name_in(rest, in_package),
                Some((key, value)) => if spec_trim(key) == "name"@ {
                    spec_parse_quoted(spec_trim(value))
                } else {
                    spec_package_name_in(rest, in_package)
                },
            }
        }
    }
}

/// The package name of a Cargo manifest: the quoted value of the first
/// `name` key inside the `[package]` section.
pub open spec fn spec_package_name(source: Seq<char>) -> Option<Seq<char>> {
    spec_package_name_in(spec_lines(source), false)
}

/// Reads the package name of a Cargo manifest.
pub fn package_name_from_manifest_source(source: &str) -> (name: Option<String>)
    ensures
        match name {
            Some(text) => spec_package_name(source@) == Some(text@),
            None => spec_package_name(source@) is None,
        },
{
    let chars = chars_of(source);
    let lines = lines_of(chars.as_slice());
    let ghost all = spec_lines(source@);
    let mut in_package = false;
    let mut i: usize = 0;
    assert(all.skip(0) =~= all);
    while i < lines.len()
        invariant
            lines@.len() == all.len(),
            all == spec_lines(source@),
            forall|k: int| 0 <= k < lines@.len() ==> #[trigger] lines@[k]@ == all[k],
            i <= lines@.len(),
            spec_package_name(source@) == spec_package_name_in(all.skip(i as int), in_package),
        decreases lines@.len() - i,
    {
        let ghost rest = all.skip(i as int);
        assert(rest[0] == all[i as int]);
        assert(rest.drop_first() =~= all.skip(i + 1));
        let line = clean_line(lines[i].as_slice());
        i = i + 1;
        if line.len() == 0 {
            continue;
        }
        if section_line(line.as_slice()) {
            in_package = text_is(line.as_slice(), "[package]");
            continue;
        }
        if !in_package {
            continue;
        }
        match split_once(line.as_slice(), '=') {
            Some((key, value)) => {
                let key = trim(key.as_slice());
                if text_is(key.as_slice(), "name") {
                    let value = trim(value.as_slice());
                    let value = string_from_chars(value.as_slice());
                    return parse_quoted_string(value.as_str());
                }
            },
            None => {},
        }
    }
    None
}

// ---------------------------------------------------------------------------
// Dependency names

/// Whether a section name is a dependency table.
pub open spec fn is_dependency_section(section: Seq<char>) -> bool {
    section == "dependencies"@ || ends_with(section, ".dependencies"@)
}

/// The external dependency names that the lines declare, reading on while
/// `in_dependencies` says whether the current section is a dependency table.
/// Names starting with `seishin` and path dependencies are left out.
pub open spec fn spec_dependency_names_in(lines: Seq<Seq<char>>, in_dependencies: bool) -> Set<
    Seq<char>,
>
    decreases lines.len(),
{
    if lines.len() == 0 {
        Set::empty()
    } else {
        let line = spec_clean_line(lines[0]);
        let rest = lines.drop_first();
        if line.len() == 0 {
            spec_dependency_names_in(rest, in_dependencies)
        } else if is_section_line(line) {
            spec_dependency_names_in(
                rest,
                is_dependency_section(spec_strip_both(line, '[', ']')),
            )
        } else if !in_dependencies {
            spec_dependency_names_in(rest, in_dependencies)
        } else {
            match spec_split_once(line, '=') {
                None => spec_dependency_names_in(rest, in_dependencies),
                Some((key, value)) => {
                    let name = spec_strip_both(spec_trim(key), '"', '"');
                    if starts_with(name, "seishin"@) || contains_text(value, "path"@) {
                        spec_dependency_names_in(rest, in_dependencies)
                    } else {
                        spec_dependency_names_in(rest, in_dependencies).insert(name)
                    }
                },
            }
        }
    }
}

/// The external dependency names that a Cargo manifest declares.
pub open spec fn spec_dependency_names(source: Seq<char>) -> Set<Seq<char>> {
    spec_dependency_names_in(spec_lines(source), false)
}

/// Reads the external dependency names of a Cargo manifest, sorted and
/// without repeats.
pub fn dependency_names_from_manifest_source(source: &str) -> (names: Vec<String>)
    ensures
        strictly_sorted(views(names@)),
        views(names@).to_set() == spec_dependency_names(source@),
{
    let chars = chars_of(source);
    let lines = lines_of(chars.as_slice());
    let ghost all = spec_lines(source@);
    let mut names: Vec<String> = Vec::new();
    let mut in_dependencies = false;
    let mut i: usize = 0;
    assert(all.skip(0) =~= all);
    assert(views(names@).to_set() =~= Set::<Seq<char>>::empty());
    while i < lines.len()
        invariant
            lines@.len() == all.len(),
            all == spec_lines(source@),
            forall|k: int| 0 <= k < lines@.len() ==> #[trigger] lines@[k]@ == all[k],
            i <= lines@.len(),
            strictly_sorted(views(names@)),
            spec_dependency_names(source@) == views(names@).to_set().union(
                spec_dependency_names_in(all.skip(i as int), in_dependencies),
            ),
        decreases lines@.len() - i,
    {
        let ghost rest = all.skip(i as int);
        let ghost names_before = views(names@).to_set();
        assert(rest[0] == all[i as int]);
        assert(rest.drop_first() =~= all.skip(i + 1));
        let line = clean_line(lines[i].as_slice());
        i = i + 1;
        if line.len() == 0 {
            continue;
        }
        if section_line(line.as_slice()) {
            let section = strip_both(line.as_slice(), '[', ']');
            let suffix = chars_of(".dependencies");
            in_dependencies = text_is(section.as_slice(), "dependencies") || ends_with_exec(
                section.as_slice(),
                suffix.as_slice(),
            );
            continue;
        }
        if !in_dependencies {
            continue;
        }
        match split_once(line.as_slice(), '=') {
            Some((key, value)) => {
                let key = trim(key.as_slice());
                let name = strip_both(key.as_slice(), '"', '"');
                let prefix = chars_of("seishin");
                let path = chars_of("path");
                if !starts_with_exec(name.as_slice(), prefix.as_slice()) && !contains_exec(
                    value.as_slice(),
                    path.as_slice(),
                ) {
                    insert_sorted(&mut names, string_from_chars(name.as_slice()));
                    proof {
                        let later = spec_dependency_names_in(all.skip(i as int), in_dependencies);
                        assert(views(names@).to_set().union(later) =~= names_before.union(
                            later.insert(name@),
                        ));
                    }
                }
            },
            None => {},
        }
    }
    proof {
        assert(all.skip(i as int) =~= Seq::<Seq<char>>::empty());
        assert(views(names@).to_set().union(Set::empty()) =~= views(names@).to_set());
    }
    names
}

// ---------------------------------------------------------------------------
// Component types used by resources

/// Whether a section name is a component table: `components.<name>` or any
/// table nested as `<...>.components.<name>`.
pub open spec fn is_component_section(section: Seq<char>) -> bool {
    starts_with(section, "components."@) || contains_text(section, ".components."@)
}

/// The component types that the lines name with a quoted `type` key inside a
/// component table, reading on while `in_components` says whether the current
/// section is one.
pub open spec fn spec_component_types_in(lines: Seq<Seq<char>>, in_components: bool) -> Set<
    Seq<char>,
>
    decreases lines.len(),
{
    if lines.len() == 0 {
        Set::empty()
    } else {
        let line = spec_clean_line(lines[0]);
        let rest = lines.drop_first();
        if line.len() == 0 {
            spec_component_types_in(rest, in_components)
        } else if is_section_line(line) {
            spec_component_types_in(
                rest,
                is_component_section(spec_strip_both(line, '[', ']')),
            )
        } else if !in_components {
            spec_component_types_in(rest, in_components)
        } else {
            match spec_split_once(line, '=') {
                None => spec_component_types_in(rest, in_components),
                Some((key, value)) => if spec_trim(key) == "type"@ {
                    match spec_parse_quoted(spec_trim(value)) {
                        Some(component) => spec_component_types_in(rest, in_components).insert(
                            component,
                        ),
                        None => spec_component_types_in(rest, in_components),
                    }
                } else {
                    spec_component_types_in(rest, in_components)
                },
            }
        }
    }
}

/// The custom component types that a TOML resource names.
pub open spec fn spec_component_types(source: Seq<char>) -> Set<Seq<char>> {
    spec_component_types_in(spec_lines(source), false)
}

/// Adds the custom component types that a TOML resource names to a sorted
/// list without repeats.
fn collect_component_types(source: &str, types: &mut Vec<String>)
    requires
        strictly_sorted(views(old(types)@)),
    ensures
        strictly_sorted(views(final(types)@)),
        views(final(types)@).to_set() == views(old(types)@).to_set().union(
            spec_component_types(source@),
        ),
{
    let chars = chars_of(source);
    let lines = lines_of(chars.as_slice());
    let ghost all = spec_lines(source@);
    let ghost start = views(types@).to_set();
    let mut in_components = false;
    let mut i: usize = 0;
    assert(all.skip(0) =~= all);
    while i < lines.len()
        invariant
            lines@.len() == all.len(),
            all == spec_lines(source@),
            forall|k: int| 0 <= k < lines@.len() ==> #[trigger] lines@[k]@ == all[k],
            i <= lines@.len(),
            strictly_sorted(views(types@)),
            start.union(spec_component_types(source@)) == views(types@).to_set().union(
                spec_component_types_in(all.skip(i as int), in_components),
            ),
        decreases lines@.len() - i,
    {
        let ghost rest = all.skip(i as int);
        let ghost before = views(types@).to_set();
        assert(rest[0] == all[i as int]);
        assert(rest.drop_first() =~= all.skip(i + 1));
        let line = clean_line(lines[i].as_slice());
        i = i + 1;
        if line.len() == 0 {
            continue;
        }
        if section_line(line.as_slice()) {
            let section = strip_both(line.as_slice(), '[', ']');
            let prefix = chars_of("components.");
            let nested = chars_of(".components.");
            in_components = starts_with_exec(section.as_slice(), prefix.as_slice())
                || contains_exec(section.as_slice(), nested.as_slice());
            continue;
        }
        if !in_components {
            continue;
        }
        match split_once(line.as_slice(), '=') {
            Some((key, value)) => {
                let key = trim(key.as_slice());
                if text_is(key.as_slice(), "type") {
                    let value = trim(value.as_slice());
                    let value = string_from_chars(value.as_slice());
                    match parse_quoted_string(value.as_str()) {
                        Some(component) => {
                            let ghost named = component@;
                            insert_sorted(types, component);
                            proof {
                                let later = spec_component_types_in(
                                    all.skip(i as int),
                                    in_components,
                                );
                                assert(views(types@).to_set().union(later) =~= before.union(
                                    later.insert(named),
                                ));
                            }
                        },
                        None => {},
                    }
                }
            },
            None => {},
        }
    }
    proof {
        assert(all.skip(i as int) =~= Seq::<Seq<char>>::empty());
        assert(views(types@).to_set().union(Set::empty()) =~= views(types@).to_set());
    }
}

/// Reads the custom component types that a TOML resource names, sorted and
/// without repeats.
pub fn custom_component_types_from_toml_source(source: &str) -> (types: Vec<String>)
    ensures
        strictly_sorted(views(types@)),
        views(types@).to_set() == spec_component_types(source@),
{
    let mut types: Vec<String> = Vec::new();
    assert(views(types@).to_set() =~= Set::<Seq<char>>::empty());
    collect_component_types(source, &mut types);
    assert(Set::<Seq<char>>::empty().union(spec_component_types(source@)) =~= spec_component_types(
        source@,
    ));
    types
}

/// The custom component types that any of the resources names.
pub open spec fn spec_component_types_of_all(sources: Seq<Seq<char>>) -> Set<Seq<char>>
    decreases sources.len(),
{
    if sources.len() == 0 {
        Set::empty()
    } else {
        spec_component_types_of_all(sources.drop_last()).union(
            spec_component_types(sources.last()),
        )
    }
}

/// Reads the custom component types that a project's TOML resources name,
/// sorted and without repeats.
pub fn custom_component_types_from_sources(sources: &[String]) -> (types: Vec<String>)
    ensures
        strictly_sorted(views(types@)),
        views(types@).to_set() == spec_component_types_of_all(views(sources@)),
{
    let mut types: Vec<String> = Vec::new();
    let mut i: usize = 0;
    assert(views(types@).to_set() =~= Set::<Seq<char>>::empty());
    assert(views(sources@).take(0) =~= Seq::<Seq<char>>::empty());
    while i < sources.len()
        invariant
            i <= sources@.len(),
            strictly_sorted(views(types@)),
            views(types@).to_set() == spec_component_types_of_all(
                views(sources@).take(i as int),
            ),
        decreases sources@.len() - i,
    {
        collect_component_types(sources[i].as_str(), &mut types);
        proof {
            let taken = views(sources@).take(i + 1);
            assert(taken.drop_last() =~= views(sources@).take(i as int));
            assert(taken.last() == sources@[i as int]@);
        }
        i = i + 1;
    }
    assert(views(sources@).take(i as int) =~= views(sources@));
    types
}

// ---------------------------------------------------------------------------
// Registered against used components

/// The used components that are not registered, in the order they are used.
pub open spec fn spec_missing_components(registered: Seq<Seq<char>>, used: Seq<Seq<char>>) -> Seq<
    Seq<char>,
>
    decreases used.len(),
{
    if used.len() == 0 {
        seq![]
    } else {
        let earlier = spec_missing_components(registered, used.drop_last());
        if registered.contains(used.last()) {
            earlier
        } else {
            earlier.push(used.last())
        }
    }
}

/// The used components that are not registered, in the order they are used.
pub fn missing_components(registered: &[String], used: &[String]) -> (missing: Vec<String>)
    ensures
        views(missing@) == spec_missing_components(views(registered@), views(used@)),
{
    let mut missing: Vec<String> = Vec::new();
    let mut i: usize = 0;
    assert(views(used@).take(0) =~= Seq::<Seq<char>>::empty());
    while i < used.len()
        invariant
            i <= used@.len(),
            views(missing@) == spec_missing_components(
                views(registered@),
                views(used@).take(i as int),
            ),
        decreases used@.len() - i,
    {
        proof {
            let taken = views(used@).take(i + 1);
            assert(taken.drop_last() =~= views(used@).take(i as int));
            assert(taken.last() == used@[i as int]@);
        }
        if !crate::string_lists::contains_string(registered, &used[i]) {
            missing.push(used[i].clone());
            assert(views(missing@) =~= spec_missing_components(
                views(registered@),
                views(used@).take(i + 1),
            ));
        }
        i = i + 1;
    }
    assert(views(used@).take(i as int) =~= views(used@));
    missing
}

/// The values joined with `, `, or `none` for an empty list.
pub open spec fn spec_format_list(values: Seq<Seq<char>>) -> Seq<char> {
    if values.len() == 0 {
        "none"@
    } else {
        spec_join_with_comma(values)
    }
}

/// The values joined with `, `.
pub open spec fn spec_join_with_comma(values: Seq<Seq<char>>) -> Seq<char>
    decreases values.len(),
{
    if values.len() == 0 {
        seq![]
    } else if values.len() == 1 {
        values[0]
    } else {
        spec_join_with_comma(values.drop_last()) + ", "@ + values.last()
    }
}

/// Formats a list of names for a report.
pub fn format_list(values: &[String]) -> (text: String)
    ensures
        text@ == spec_format_list(views(values@)),
{
    if values.len() == 0 {
        return "none".to_owned();
    }
    let mut text = values[0].clone();
    let mut i: usize = 1;
    assert(views(values@).take(1) =~= seq![values@[0]@]);
    while i < values.len()
        invariant
            1 <= i <= values@.len(),
            text@ == spec_join_with_comma(views(values@).take(i as int)),
        decreases values@.len() - i,
    {
        text.append(", ");
        text.append(values[i].as_str());
        proof {
            let taken = views(values@).take(i + 1);
            assert(taken.drop_last() =~= views(values@).take(i as int));
            assert(taken.last() == values@[i as int]@);
        }
        i = i + 1;
    }
    assert(views(values@).take(i as int) =~= views(values@));
    text
}

/// The components a project registers and the ones its resources use.
#[derive(Debug, Clone, PartialEq, Eq)]
pub struct ProjectValidationReport {
    pub registered_components: Vec<String>,
    pub used_components: Vec<String>,
}

/// The message of a failed project check: the unregistered components and
/// the registered ones.
pub open spec fn spec_unregistered_message(missing: Seq<Seq<char>>, registered: Seq<Seq<char>>) -> Seq<
    char,
> {
    "unregistered components: "@ + spec_format_list(missing) + ". registered components: "@
        + spec_format_list(registered)
}

/// Checks that every used component is registered: the report where it is,
/// the message naming the unregistered ones where it is not.
pub fn validate_components(registered: Vec<String>, used: Vec<String>) -> (result: Result<
    ProjectValidationReport,
    String,
>)
    ensures
        spec_missing_components(views(registered@), views(used@)).len() == 0 ==> (result matches Ok(
            report,
        ) && report.registered_components@ == registered@ && report.used_components@ == used@),
        spec_missing_components(views(registered@), views(used@)).len() > 0 ==> (result matches Err(
            message,
        ) && message@ == spec_unregistered_message(
            spec_missing_components(views(registered@), views(used@)),
            views(registered@),
        )),
{
    let missing = missing_components(registered.as_slice(), used.as_slice());
    if missing.len() > 0 {
        let mut message = "unregistered components: ".to_owned();
        message.append(format_list(missing.as_slice()).as_str());
        message.append(". registered components: ");
        message.append(format_list(registered.as_slice()).as_str());
        return Err(message);
    }
    Ok(ProjectValidationReport { registered_components: registered, used_components: used })
}

// ---------------------------------------------------------------------------
// Component registrations in Rust sources

/// An ASCII letter, digit or `_`.
pub open spec fn is_ident_char(c: char) -> bool {
    let u = c as u32;
    (0x61 <= u <= 0x7a) || (0x41 <= u <= 0x5a) || (0x30 <= u <= 0x39) || u == 0x5f
}

/// A character that takes a single byte in UTF-8.
pub open spec fn is_single_byte(c: char) -> bool {
    (c as u32) < 0x80
}

/// The length of the run of identifier characters at the start of `s`.
pub open spec fn ident_len(s: Seq<char>) -> nat
    decreases s.len(),
{
    if s.len() > 0 && is_ident_char(s[0]) {
        1 + ident_len(s.drop_first())
    } else {
        0
    }
}

/// The Rust identifier at the start of `s`: its leading run of ASCII
/// letters, digits and `_`.
pub open spec fn spec_rust_ident(s: Seq<char>) -> Seq<char> {
    s.take(ident_len(s) as int)
}

proof fn lemma_ident_len(s: Seq<char>)
    ensures
        ident_len(s) <= s.len(),
        forall|j: int| 0 <= j < ident_len(s) ==> is_ident_char(s[j]),
        ident_len(s) < s.len() ==> !is_ident_char(s[ident_len(s) as int]),
    decreases s.len(),
{
    if s.len() > 0 && is_ident_char(s[0]) {
        lemma_ident_len(s.drop_first());
        assert forall|j: int| 0 <= j < ident_len(s) implies is_ident_char(s[j]) by {
            if j > 0 {
                assert(s[j] == s.drop_first()[j - 1]);
            }
        }
    }
}

proof fn lemma_ident_len_at(s: Seq<char>, n: int)
    requires
        0 <= n <= s.len(),
        forall|j: int| 0 <= j < n ==> is_ident_char(s[j]),
        n < s.len() ==> !is_ident_char(s[n]),
    ensures
        ident_len(s) == n,
    decreases n,
{
    if n > 0 {
        assert forall|j: int| 0 <= j < n - 1 implies is_ident_char(s.drop_first()[j]) by {
            assert(s.drop_first()[j] == s[j + 1]);
        }
        if n - 1 < s.drop_first().len() {
            assert(s.drop_first()[n - 1] == s[n]);
        }
        lemma_ident_len_at(s.drop_first(), n - 1);
    }
}

fn ident_char(c: char) -> (ident: bool)
    ensures
        ident == is_ident_char(c),
{
    let u = c as u32;
    (0x61 <= u && u <= 0x7a) || (0x41 <= u && u <= 0x5a) || (0x30 <= u && u <= 0x39) || u == 0x5f
}

/// The Rust identifier at the start of `source`.
pub fn take_rust_ident(source: &str) -> (ident: String)
    ensures
        ident@ == spec_rust_ident(source@),
{
    let chars = chars_of(source);
    let ident = ident_prefix(chars.as_slice(), 0);
    assert(chars@.skip(0) =~= chars@);
    string_from_chars(ident.as_slice())
}

/// The Rust identifier starting at position `from`.
fn ident_prefix(chars: &[char], from: usize) -> (ident: Vec<char>)
    requires
        from <= chars@.len(),
    ensures
        ident@ == spec_rust_ident(chars@.skip(from as int)),
{
    let mut end: usize = from;
    while end < chars.len() && ident_char(chars[end])
        invariant
            from <= end <= chars@.len(),
            forall|j: int| from <= j < end ==> is_ident_char(chars@[j]),
        decreases chars@.len() - end,
    {
        end = end + 1;
    }
    proof {
        let rest = chars@.skip(from as int);
        assert forall|j: int| 0 <= j < end - from implies is_ident_char(rest[j]) by {
            assert(rest[j] == chars@[from + j]);
        }
        if end - from < rest.len() {
            assert(rest[end - from] == chars@[end as int]);
        }
        lemma_ident_len_at(rest, end - from);
    }
    let ident = chars_subrange(chars, from, end);
    assert(ident@ =~= spec_rust_ident(chars@.skip(from as int)));
    ident
}

/// The position of the first `"` at or after `after` and of the next `"`
/// after it.
pub open spec fn spec_quote_pair(s: Seq<char>, after: int) -> Option<(int, int)> {
    match spec_first_from(s, seq!['"'], after) {
        None => None,
        Some(open) => match spec_first_from(s, seq!['"'], open + 1) {
            None => None,
            Some(close) => Some((open, close)),
        },
    }
}

/// The quoted values that follow occurrences of `marker`, scanning from
/// position `pos`: after each occurrence the text up to the next pair of
/// quotes is skipped and the text between them taken; where no pair
/// follows, the scan moves on by one character.
pub open spec fn spec_quoted_scan(s: Seq<char>, marker: Seq<char>, pos: int) -> Seq<Seq<char>>
    decreases s.len() - pos,
{
    if pos < 0 || pos > s.len() {
        seq![]
    } else {
        match spec_first_from(s, marker, pos) {
            None => seq![],
            Some(i) => {
                proof {
                    lemma_first_from(s, marker, pos);
                    lemma_first_from(s, seq!['"'], i + marker.len());
                }
                let after = i + marker.len();
                match spec_quote_pair(s, after) {
                    Some((open, close)) => {
                        proof {
                            lemma_first_from(s, seq!['"'], open + 1);
                        }
                        seq![s.subrange(open + 1, close)] + spec_quoted_scan(s, marker, close + 1)
                    },
                    None => if after >= s.len() {
                        seq![]
                    } else {
                        spec_quoted_scan(s, marker, after + 1)
                    },
                }
            },
        }
    }
}

/// The scan of `spec_quoted_scan` never moves on by one character past a
/// character that takes more than one byte.
pub open spec fn quoted_scan_in_bounds(s: Seq<char>, marker: Seq<char>, pos: int) -> bool
    decreases s.len() - pos,
{
    if pos < 0 || pos > s.len() {
        true
    } else {
        match spec_first_from(s, marker, pos) {
            None => true,
            Some(i) => {
                proof {
                    lemma_first_from(s, marker, pos);
                    lemma_first_from(s, seq!['"'], i + marker.len());
                }
                let after = i + marker.len();
                match spec_quote_pair(s, after) {
                    Some((open, close)) => {
                        proof {
                            lemma_first_from(s, seq!['"'], open + 1);
                        }
                        quoted_scan_in_bounds(s, marker, close + 1)
                    },
                    None => after >= s.len() || (is_single_byte(s[after])
                        && quoted_scan_in_bounds(s, marker, after + 1)),
                }
            },
        }
    }
}

/// The distinct quoted values that follow occurrences of `marker`, in the
/// order they first appear.
pub open spec fn spec_quoted_strings_after(source: Seq<char>, marker: Seq<char>) -> Seq<Seq<char>> {
    spec_extend_unique(seq![], spec_quoted_scan(source, marker, 0))
}

/// Reads the distinct quoted values that follow occurrences of `marker`.
pub fn quoted_strings_after(source: &str, marker: &str) -> (values: Vec<String>)
    requires
        quoted_scan_in_bounds(source@, marker@, 0),
    ensures
        views(values@) == spec_quoted_strings_after(source@, marker@),
{
    let s = chars_of(source);
    let m = chars_of(marker);
    let quote = vec!['"'];
    assert(quote@ =~= seq!['"']);
    let mut values: Vec<String> = Vec::new();
    let mut pos: usize = 0;
    assert(views(values@) =~= Seq::<Seq<char>>::empty());
    while pos <= s.len()
        invariant
            s@ == source@,
            m@ == marker@,
            quote@ == seq!['"'],
            pos <= s@.len() + 1,
            quoted_scan_in_bounds(s@, m@, pos as int),
            spec_quoted_strings_after(source@, marker@) == spec_extend_unique(
                views(values@),
                spec_quoted_scan(s@, m@, pos as int),
            ),
        ensures
            spec_quoted_strings_after(source@, marker@) == views(values@),
        decreases s@.len() + 1 - pos,
    {
        proof {
            lemma_first_from(s@, m@, pos as int);
        }
        let i = match first_from(s.as_slice(), m.as_slice(), pos) {
            Some(i) => i,
            None => {
                assert(spec_quoted_scan(s@, m@, pos as int) =~= Seq::<Seq<char>>::empty());
                break;
            },
        };
        let after = i + m.len();
        proof {
            lemma_first_from(s@, seq!['"'], after as int);
        }
        let open = first_from(s.as_slice(), quote.as_slice(), after);
        let close = match open {
            Some(o) => {
                proof {
                    lemma_first_from(s@, seq!['"'], o + 1);
                }
                first_from(s.as_slice(), quote.as_slice(), o + 1)
            },
            None => None,
        };
        match (open, close) {
            (Some(o), Some(c)) => {
                let value = chars_subrange(s.as_slice(), o + 1, c);
                let value = string_from_chars(value.as_slice());
                proof {
                    let scan = spec_quoted_scan(s@, m@, pos as int);
                    assert(scan == seq![value@] + spec_quoted_scan(s@, m@, c + 1));
                    assert(scan[0] == value@);
                    assert(scan.drop_first() =~= spec_quoted_scan(s@, m@, c + 1));
                }
                crate::string_lists::push_unique(&mut values, value);
                pos = c + 1;
            },
            _ => {
                if after >= s.len() {
                    assert(spec_quoted_scan(s@, m@, pos as int) =~= Seq::<Seq<char>>::empty());
                    break;
                }
                pos = after + 1;
            },
        }
        if pos > s.len() {
            assert(spec_quoted_scan(s@, m@, pos as int) =~= Seq::<Seq<char>>::empty());
        }
    }
    values
}

/// The component modules that `.add_component(components::<module>...)`
/// calls name, scanning from position `pos`, each time moving on by one
/// character past the call's opening parenthesis.
pub open spec fn spec_modules_scan(s: Seq<char>, pos: int) -> Seq<Seq<char>>
    decreases s.len() - pos,
{
    if pos < 0 || pos > s.len() {
        seq![]
    } else {
        match spec_first_from(s, ".add_component("@, pos) {
            None => seq![],
            Some(i) => {
                proof {
                    lemma_first_from(s, ".add_component("@, pos);
                }
                let after = i + ".add_component("@.len();
                let module = match spec_first_from(s, "components::"@, after) {
                    Some(c) => spec_rust_ident(s.skip(c + "components::"@.len())),
                    None => seq![],
                };
                let found = if module.len() > 0 {
                    seq![module]
                } else {
                    seq![]
                };
                if after >= s.len() {
                    found
                } else {
                    found + spec_modules_scan(s, after + 1)
                }
            },
        }
    }
}

/// The scan of `spec_modules_scan` never moves on by one character past a
/// character that takes more than one byte.
pub open spec fn modules_scan_in_bounds(s: Seq<char>, pos: int) -> bool
    decreases s.len() - pos,
{
    if pos < 0 || pos > s.len() {
        true
    } else {
        match spec_first_from(s, ".add_component("@, pos) {
            None => true,
            Some(i) => {
                proof {
                    lemma_first_from(s, ".add_component("@, pos);
                }
                let after = i + ".add_component("@.len();
                after >= s.len() || (is_single_byte(s[after]) && modules_scan_in_bounds(
                    s,
                    after + 1,
                ))
            },
        }
    }
}

/// The distinct component modules that a `main.rs` registers, in order.
pub open spec fn spec_component_modules(source: Seq<char>) -> Seq<Seq<char>> {
    spec_extend_unique(seq![], spec_modules_scan(source, 0))
}

/// Reads the component modules that a `main.rs` registers with
/// `.add_component(components::<module>...)`.
pub fn component_modules_from_main_source(source: &str) -> (modules: Vec<String>)
    requires
        modules_scan_in_bounds(source@, 0),
    ensures
        views(modules@) == spec_component_modules(source@),
{
    let s = chars_of(source);
    let marker = chars_of(".add_component(");
    let component_marker = chars_of("components::");
    let mut modules: Vec<String> = Vec::new();
    let mut pos: usize = 0;
    assert(views(modules@) =~= Seq::<Seq<char>>::empty());
    while pos <= s.len()
        invariant
            s@ == source@,
            marker@ == ".add_component("@,
            component_marker@ == "components::"@,
            pos <= s@.len() + 1,
            modules_scan_in_bounds(s@, pos as int),
            spec_component_modules(source@) == spec_extend_unique(
                views(modules@),
                spec_modules_scan(s@, pos as int),
            ),
        ensures
            spec_component_modules(source@) == views(modules@),
        decreases s@.len() + 1 - pos,
    {
        proof {
            lemma_first_from(s@, marker@, pos as int);
        }
        let i = match first_from(s.as_slice(), marker.as_slice(), pos) {
            Some(i) => i,
            None => {
                assert(spec_modules_scan(s@, pos as int) =~= Seq::<Seq<char>>::empty());
                break;
            },
        };
        let after = i + marker.len();
        proof {
            lemma_first_from(s@, component_marker@, after as int);
        }
        let module = match first_from(s.as_slice(), component_marker.as_slice(), after) {
            Some(c) => ident_prefix(s.as_slice(), c + component_marker.len()),
            None => Vec::new(),
        };
        let ghost scan = spec_modules_scan(s@, pos as int);
        let ghost before = views(modules@);
        if module.len() > 0 {
            let name = string_from_chars(module.as_slice());
            proof {
                assert(scan[0] == name@);
            }
            crate::string_lists::push_unique(&mut modules, name);
        }
        if after >= s.len() {
            proof {
                if module.len() > 0 {
                    assert(scan.drop_first() =~= Seq::<Seq<char>>::empty());
                } else {
                    assert(scan =~= Seq::<Seq<char>>::empty());
                }
            }
            break;
        }
        proof {
            if module.len() > 0 {
                assert(scan.drop_first() =~= spec_modules_scan(s@, after + 1));
            } else {
                assert(scan =~= spec_modules_scan(s@, after + 1));
            }
        }
        pos = after + 1;
        if pos > s.len() {
            assert(spec_modules_scan(s@, pos as int) =~= Seq::<Seq<char>>::empty());
        }
    }
    modules
}

/// The distinct component names that a component module registers: the
/// quoted first arguments of its registration calls, in the order of the
/// three call kinds.
pub open spec fn spec_component_names(source: Seq<char>) -> Seq<Seq<char>> {
    spec_extend_unique(
        spec_extend_unique(
            spec_quoted_strings_after(source, "component_factory("@),
            spec_quoted_strings_after(source, "register_component_factory("@),
        ),
        spec_quoted_strings_after(source, "register_component("@),
    )
}

/// The scans of the three registration calls stay within the text.
pub open spec fn component_names_in_bounds(source: Seq<char>) -> bool {
    &&& quoted_scan_in_bounds(source, "component_factory("@, 0)
    &&& quoted_scan_in_bounds(source, "register_component_factory("@, 0)
    &&& quoted_scan_in_bounds(source, "register_component("@, 0)
}

fn single_byte(c: char) -> (single: bool)
    ensures
        single == is_single_byte(c),
{
    (c as u32) < 0x80
}

/// Whether the module scan of `component_modules_from_main_source` stays
/// within `source`.
pub fn modules_scan_checked(source: &str) -> (in_bounds: bool)
    ensures
        in_bounds == modules_scan_in_bounds(source@, 0),
{
    let s = chars_of(source);
    let marker = chars_of(".add_component(");
    let mut pos: usize = 0;
    while pos <= s.len()
        invariant
            s@ == source@,
            marker@ == ".add_component("@,
            pos <= s@.len() + 1,
            modules_scan_in_bounds(source@, 0) == modules_scan_in_bounds(s@, pos as int),
        decreases s@.len() + 1 - pos,
    {
        proof {
            lemma_first_from(s@, marker@, pos as int);
        }
        let i = match first_from(s.as_slice(), marker.as_slice(), pos) {
            Some(i) => i,
            None => return true,
        };
        let after = i + marker.len();
        if after >= s.len() {
            return true;
        }
        if !single_byte(s[after]) {
            return false;
        }
        pos = after + 1;
    }
    true
}

/// Whether the scan of quoted values after `marker` stays within `s`.
fn quoted_scan_checked(s: &[char], marker: &[char]) -> (in_bounds: bool)
    ensures
        in_bounds == quoted_scan_in_bounds(s@, marker@, 0),
{
    let quote = vec!['"'];
    assert(quote@ =~= seq!['"']);
    let mut pos: usize = 0;
    while pos <= s.len()
        invariant
            quote@ == seq!['"'],
            pos <= s@.len() + 1,
            quoted_scan_in_bounds(s@, marker@, 0) == quoted_scan_in_bounds(s@, marker@, pos as int),
        decreases s@.len() + 1 - pos,
    {
        proof {
            lemma_first_from(s@, marker@, pos as int);
        }
        let i = match first_from(s, marker, pos) {
            Some(i) => i,
            None => return true,
        };
        let after = i + marker.len();
        proof {
            lemma_first_from(s@, seq!['"'], after as int);
        }
        let open = first_from(s, quote.as_slice(), after);
        let close = match open {
            Some(o) => {
                proof {
                    lemma_first_from(s@, seq!['"'], o + 1);
                }
                first_from(s, quote.as_slice(), o + 1)
            },
            None => None,
        };
        match (open, close) {
            (Some(_), Some(c)) => {
                pos = c + 1;
            },
            _ => {
                if after >= s.len() {
                    return true;
                }
                if !single_byte(s[after]) {
                    return false;
                }
                pos = after + 1;
            },
        }
    }
    true
}

/// Whether the scans of `component_names_from_module_source` stay within
/// `source`.
pub fn component_scan_checked(source: &str) -> (in_bounds: bool)
    ensures
        in_bounds == component_names_in_bounds(source@),
{
    let s = chars_of(source);
    let factory = chars_of("component_factory(");
    let register_factory = chars_of("register_component_factory(");
    let register = chars_of("register_component(");
    quoted_scan_checked(s.as_slice(), factory.as_slice()) && quoted_scan_checked(
        s.as_slice(),
        register_factory.as_slice(),
    ) && quoted_scan_checked(s.as_slice(), register.as_slice())
}

/// Reads the distinct component names that a component module registers.
pub fn component_names_from_module_source(source: &str) -> (names: Vec<String>)
    requires
        component_names_in_bounds(source@),
    ensures
        views(names@) == spec_component_names(source@),
{
    let mut names = quoted_strings_after(source, "component_factory(");
    extend_unique(&mut names, quoted_strings_after(source, "register_component_factory("));
    extend_unique(&mut names, quoted_strings_after(source, "register_component("));
    names
}

/// A table of (name, text) pairs with its texts as characters.
pub open spec fn pairs_view(table: Seq<(String, String)>) -> Seq<(Seq<char>, Seq<char>)> {
    table.map_values(|pair: (String, String)| (pair.0@, pair.1@))
}

/// The text of the first entry named `name`.
pub open spec fn spec_lookup(table: Seq<(Seq<char>, Seq<char>)>, name: Seq<char>) -> Option<
    Seq<char>,
>
    decreases table.len(),
{
    if table.len() == 0 {
        None
    } else if table[0].0 == name {
        Some(table[0].1)
    } else {
        spec_lookup(table.drop_first(), name)
    }
}

/// The message for a registered module whose source is missing.
pub open spec fn spec_module_not_found_message(module: Seq<char>) -> Seq<char> {
    "component module '"@ + module + "' was registered but not found"@
}

/// The message for a module that registers no component name.
pub open spec fn spec_module_without_names_message(module: Seq<char>) -> Seq<char> {
    "component module '"@ + module + "' does not expose a registered component name"@
}

/// The component names that the modules register, appended in module order
/// to `found` without repeats, or the message for the first module whose
/// source is missing or registers nothing.
pub open spec fn spec_registered_from(
    modules: Seq<Seq<char>>,
    table: Seq<(Seq<char>, Seq<char>)>,
    found: Seq<Seq<char>>,
) -> Result<Seq<Seq<char>>, Seq<char>>
    decreases modules.len(),
{
    if modules.len() == 0 {
        Ok(found)
    } else {
        let module = modules[0];
        match spec_lookup(table, module) {
            None => Err(spec_module_not_found_message(module)),
            Some(source) => {
                let names = spec_component_names(source);
                if names.len() == 0 {
                    Err(spec_module_without_names_message(module))
                } else {
                    spec_registered_from(
                        modules.drop_first(),
                        table,
                        spec_extend_unique(found, names),
                    )
                }
            },
        }
    }
}

/// The scans of every module source that the registration reads stay within
/// their texts.
pub open spec fn registered_in_bounds(
    modules: Seq<Seq<char>>,
    table: Seq<(Seq<char>, Seq<char>)>,
) -> bool
    decreases modules.len(),
{
    if modules.len() == 0 {
        true
    } else {
        match spec_lookup(table, modules[0]) {
            None => true,
            Some(source) => component_names_in_bounds(source) && (spec_component_names(
                source,
            ).len() == 0 || registered_in_bounds(modules.drop_first(), table)),
        }
    }
}

/// The component names that a project registers: those of each component
/// module that its `main.rs` adds, read from the module sources in `table`.
pub open spec fn spec_registered_components(
    main_source: Seq<char>,
    table: Seq<(Seq<char>, Seq<char>)>,
) -> Result<Seq<Seq<char>>, Seq<char>> {
    spec_registered_from(spec_component_modules(main_source), table, seq![])
}

fn lookup_source<'a>(table: &'a [(String, String)], name: &String) -> (source: Option<&'a String>)
    ensures
        match source {
            Some(text) => spec_lookup(pairs_view(table@), name@) == Some(text@),
            None => spec_lookup(pairs_view(table@), name@) is None,
        },
{
    let mut i: usize = 0;
    assert(pairs_view(table@).skip(0) =~= pairs_view(table@));
    while i < table.len()
        invariant
            i <= table@.len(),
            spec_lookup(pairs_view(table@), name@) == spec_lookup(
                pairs_view(table@).skip(i as int),
                name@,
            ),
        decreases table@.len() - i,
    {
        let ghost rest = pairs_view(table@).skip(i as int);
        assert(rest[0] == (table@[i as int].0@, table@[i as int].1@));
        assert(rest.drop_first() =~= pairs_view(table@).skip(i + 1));
        if table[i].0 == *name {
            return Some(&table[i].1);
        }
        i = i + 1;
    }
    assert(pairs_view(table@).skip(i as int) =~= Seq::<(Seq<char>, Seq<char>)>::empty());
    None
}

fn module_message(prefix: &str, module: &str, suffix: &str) -> (message: String)
    ensures
        message@ == prefix@ + module@ + suffix@,
{
    let mut message = prefix.to_owned();
    message.append(module);
    message.append(suffix);
    message
}

/// Reads the component names that a project registers, given its `main.rs`
/// and the sources of its component modules by module name.
pub fn registered_components_from_sources(main_source: &str, module_sources: &[(String, String)]) -> (result:
    Result<Vec<String>, String>)
    requires
        modules_scan_in_bounds(main_source@, 0),
        registered_in_bounds(spec_component_modules(main_source@), pairs_view(module_sources@)),
    ensures
        match result {
            Ok(names) => spec_registered_components(main_source@, pairs_view(module_sources@))
                == Ok::<Seq<Seq<char>>, Seq<char>>(views(names@)),
            Err(message) => spec_registered_components(main_source@, pairs_view(module_sources@))
                == Err::<Seq<Seq<char>>, Seq<char>>(message@),
        },
{
    let modules = component_modules_from_main_source(main_source);
    let ghost table = pairs_view(module_sources@);
    let mut components: Vec<String> = Vec::new();
    let mut i: usize = 0;
    assert(views(modules@).skip(0) =~= views(modules@));
    assert(views(components@) =~= Seq::<Seq<char>>::empty());
    while i < modules.len()
        invariant
            i <= modules@.len(),
            table == pairs_view(module_sources@),
            registered_in_bounds(views(modules@).skip(i as int), table),
            spec_registered_components(main_source@, table) == spec_registered_from(
                views(modules@).skip(i as int),
                table,
                views(components@),
            ),
        decreases modules@.len() - i,
    {
        let ghost rest = views(modules@).skip(i as int);
        assert(rest[0] == modules@[i as int]@);
        assert(rest.drop_first() =~= views(modules@).skip(i + 1));
        let module = &modules[i];
        let source = match lookup_source(module_sources, module) {
            Some(source) => source,
            None => {
                return Err(
                    module_message(
                        "component module '",
                        module.as_str(),
                        "' was registered but not found",
                    ),
                );
            },
        };
        let names = component_names_from_module_source(source.as_str());
        if names.len() == 0 {
            return Err(
                module_message(
                    "component module '",
                    module.as_str(),
                    "' does not expose a registered component name",
                ),
            );
        }
        extend_unique(&mut components, names);
        i = i + 1;
    }
    assert(views(modules@).skip(i as int) =~= Seq::<Seq<char>>::empty());
    Ok(components)
}

// ---------------------------------------------------------------------------
// Command-line arguments

/// The value after the first `--example` flag that has one.
pub open spec fn spec_parse_example(args: Seq<Seq<char>>) -> Option<Seq<char>>
    decreases args.len(),
{
    if args.len() < 2 {
        None
    } else if args[0] == "--example"@ {
        Some(args[1])
    } else {
        spec_parse_example(args.drop_first())
    }
}

/// Reads the example name given after `--example`.
pub fn parse_example(args: &[String]) -> (example: Option<String>)
    ensures
        match example {
            Some(name) => spec_parse_example(views(args@)) == Some(name@),
            None => spec_parse_example(views(args@)) is None,
        },
{
    let flag = "--example".to_owned();
    let mut i: usize = 0;
    assert(views(args@).skip(0) =~= views(args@));
    while i < args.len() && args.len() - i >= 2
        invariant
            i <= args@.len(),
            flag@ == "--example"@,
            spec_parse_example(views(args@)) == spec_parse_example(views(args@).skip(i as int)),
        decreases args@.len() - i,
    {
        let ghost rest = views(args@).skip(i as int);
        assert(rest[0] == args@[i as int]@);
        assert(rest[1] == args@[i + 1]@);
        assert(rest.drop_first() =~= views(args@).skip(i + 1));
        if args[i] == flag {
            return Some(args[i + 1].clone());
        }
        i = i + 1;
    }
    None
}

// ---------------------------------------------------------------------------
// Static web files

/// The text with every `\` turned into `/`.
pub open spec fn spec_normalize_path(path: Seq<char>) -> Seq<char> {
    path.map_values(|c: char| if c == '\\' { '/' } else { c })
}

/// A path written with `/` separators only.
pub fn normalize_path(path: &str) -> (normalized: String)
    ensures
        normalized@ == spec_normalize_path(path@),
{
    let chars = chars_of(path);
    let mut out: Vec<char> = Vec::new();
    let mut i: usize = 0;
    while i < chars.len()
        invariant
            i <= chars@.len(),
            out@ == spec_normalize_path(chars@.take(i as int)),
        decreases chars@.len() - i,
    {
        let c = chars[i];
        out.push(if c == '\\' { '/' } else { c });
        assert(out@ =~= spec_normalize_path(chars@.take(i + 1)));
        i = i + 1;
    }
    assert(chars@.take(i as int) =~= chars@);
    string_from_chars(out.as_slice())
}

/// The pieces of `s` between occurrences of `c`, as `str::split` gives them.
pub open spec fn spec_split(s: Seq<char>, c: char) -> Seq<Seq<char>>
    decreases s.len(),
{
    match spec_find_char(s, c) {
        None => seq![s],
        Some(i) => {
            proof {
                crate::scan::lemma_find_char(s, c);
            }
            seq![s.take(i)] + spec_split(s.skip(i + 1), c)
        },
    }
}

/// The pieces of `s` between occurrences of `c`.
pub fn split_char(s: &[char], c: char) -> (pieces: Vec<Vec<char>>)
    ensures
        pieces@.len() == spec_split(s@, c).len(),
        forall|k: int| 0 <= k < pieces@.len() ==> #[trigger] pieces@[k]@ == spec_split(s@, c)[k],
{
    let mut pieces: Vec<Vec<char>> = Vec::new();
    let ghost mut done: Seq<Seq<char>> = seq![];
    let mut start: usize = 0;
    let mut i: usize = 0;
    assert(s@.skip(0) =~= s@);
    while i < s.len()
        invariant
            start <= i <= s@.len(),
            pieces@.len() == done.len(),
            forall|k: int| 0 <= k < pieces@.len() ==> #[trigger] pieces@[k]@ == done[k],
            forall|j: int| start <= j < i ==> s@[j] != c,
            spec_split(s@, c) == done + spec_split(s@.skip(start as int), c),
        decreases s@.len() - i,
    {
        if s[i] == c {
            let piece = chars_subrange(s, start, i);
            proof {
                let rest = s@.skip(start as int);
                assert forall|j: int| 0 <= j < i - start implies rest[j] != c by {
                    assert(rest[j] == s@[start + j]);
                }
                assert(rest[i - start] == s@[i as int]);
                crate::scan::lemma_find_char_at(rest, c, i - start);
                assert(rest.take(i - start) =~= piece@);
                assert(rest.skip(i - start + 1) =~= s@.skip(i + 1));
                done = done.push(piece@);
                assert(spec_split(s@, c) =~= done + spec_split(s@.skip(i + 1), c));
            }
            pieces.push(piece);
            start = i + 1;
        }
        i = i + 1;
    }
    let piece = chars_subrange(s, start, s.len());
    proof {
        let rest = s@.skip(start as int);
        assert forall|j: int| 0 <= j < rest.len() implies rest[j] != c by {
            assert(rest[j] == s@[start + j]);
        }
        crate::scan::lemma_find_char(rest, c);
        if let Some(k) = spec_find_char(rest, c) {
            assert(rest[k] != c);
        }
        assert(piece@ =~= rest);
        done = done.push(piece@);
        assert(spec_split(s@, c) =~= done);
    }
    pieces.push(piece);
    pieces
}

/// The file path under `root` of the segments, pushed one by one; empty and
/// `.` segments are skipped, and a `..` segment or one holding `\` refuses
/// the request.
pub open spec fn spec_push_segments(resolved: Seq<char>, segments: Seq<Seq<char>>) -> Option<
    Seq<char>,
>
    decreases segments.len(),
{
    if segments.len() == 0 {
        Some(resolved)
    } else {
        let segment = segments[0];
        let rest = segments.drop_first();
        if segment.len() == 0 || segment == "."@ {
            spec_push_segments(resolved, rest)
        } else if segment == ".."@ || segment.contains('\\') {
            None
        } else {
            spec_push_segments(crate::paths::spec_join(resolved, segment), rest)
        }
    }
}

/// The file a static request asks for under `root`: the request path without
/// its query and leading slashes (`index.html` where nothing is left), each
/// segment pushed onto `root`; `None` where a segment would climb out.
pub open spec fn spec_resolve_request_path(root: Seq<char>, request_path: Seq<char>) -> Option<
    Seq<char>,
> {
    let path = spec_strip_start(spec_before_char(request_path, '?'), '/', '/');
    let path = if path.len() == 0 {
        "index.html"@
    } else {
        path
    };
    spec_push_segments(root, spec_split(path, '/'))
}

proof fn lemma_push_segments_keeps_prefix(resolved: Seq<char>, segments: Seq<Seq<char>>)
    ensures
        spec_push_segments(resolved, segments) matches Some(path) ==> crate::paths::has_prefix(path, resolved),
    decreases segments.len(),
{
    if segments.len() == 0 {
        assert(resolved.subrange(0, resolved.len() as int) =~= resolved);
    } else {
        let segment = segments[0];
        let rest = segments.drop_first();
        if segment.len() == 0 || segment == "."@ {
            lemma_push_segments_keeps_prefix(resolved, rest);
        } else if segment == ".."@ || segment.contains('\\') {
        } else {
            let joined = crate::paths::spec_join(resolved, segment);
            lemma_push_segments_keeps_prefix(joined, rest);
            if let Some(path) = spec_push_segments(joined, rest) {
                assert(joined.subrange(0, resolved.len() as int) =~= resolved);
                assert(path.subrange(0, resolved.len() as int) =~= joined.subrange(0, resolved.len() as int));
            }
        }
    }
}

/// A static request never resolves outside the served root.
pub proof fn lemma_request_stays_under_root(root: Seq<char>, request_path: Seq<char>)
    ensures
        spec_resolve_request_path(root, request_path) matches Some(path) ==> crate::paths::has_prefix(path, root),
{
    let path = spec_strip_start(spec_before_char(request_path, '?'), '/', '/');
    let path = if path.len() == 0 {
        "index.html"@
    } else {
        path
    };
    lemma_push_segments_keeps_prefix(root, spec_split(path, '/'));
}

/// Resolves a static request path under `root`.
pub fn resolve_request_path(root: &str, request_path: &str) -> (resolved: Option<String>)
    ensures
        match resolved {
            Some(path) => spec_resolve_request_path(root@, request_path@) == Some(path@),
            None => spec_resolve_request_path(root@, request_path@) is None,
        },
{
    let request = chars_of(request_path);
    let before = before_char(request.as_slice(), '?');
    let trimmed = strip_leading(before.as_slice(), '/');
    let index = chars_of("index.html");
    let path = if trimmed.len() == 0 {
        index
    } else {
        trimmed
    };
    let segments = split_char(path.as_slice(), '/');
    let ghost all = spec_split(path@, '/');
    let mut resolved = root.to_owned();
    let mut i: usize = 0;
    assert(all.skip(0) =~= all);
    while i < segments.len()
        invariant
            i <= segments@.len(),
            segments@.len() == all.len(),
            forall|k: int| 0 <= k < segments@.len() ==> #[trigger] segments@[k]@ == all[k],
            spec_resolve_request_path(root@, request_path@) == spec_push_segments(
                resolved@,
                all.skip(i as int),
            ),
        decreases segments@.len() - i,
    {
        let ghost rest = all.skip(i as int);
        assert(rest[0] == segments@[i as int]@);
        assert(rest.drop_first() =~= all.skip(i + 1));
        let segment = &segments[i];
        i = i + 1;
        if segment.len() == 0 || text_is(segment.as_slice(), ".") {
            continue;
        }
        if text_is(segment.as_slice(), "..") || contains_char(segment.as_slice(), '\\') {
            return None;
        }
        let text = string_from_chars(segment.as_slice());
        resolved = crate::paths::join(resolved.as_str(), text.as_str());
    }
    assert(all.skip(i as int) =~= Seq::<Seq<char>>::empty());
    Some(resolved)
}

fn contains_char(s: &[char], c: char) -> (found: bool)
    ensures
        found == s@.contains(c),
{
    let mut i: usize = 0;
    while i < s.len()
        invariant
            i <= s@.len(),
            forall|j: int| 0 <= j < i ==> s@[j] != c,
        decreases s@.len() - i,
    {
        if s[i] == c {
            return true;
        }
        i = i + 1;
    }
    false
}

fn strip_leading(s: &[char], c: char) -> (stripped: Vec<char>)
    ensures
        stripped@ == spec_strip_start(s@, c, c),
{
    let mut start: usize = 0;
    while start < s.len() && s[start] == c
        invariant
            0 <= start <= s@.len(),
            forall|j: int| 0 <= j < start ==> s@[j] == c || s@[j] == c,
        decreases s@.len() - start,
    {
        start = start + 1;
    }
    proof {
        lemma_strip_start_skip(s@, c, c, start as int);
        let rest = s@.skip(start as int);
        if rest.len() > 0 {
            assert(rest[0] == s@[start as int]);
        }
    }
    let stripped = chars_subrange(s, start, s.len());
    assert(stripped@ =~= s@.skip(start as int));
    stripped
}

/// The position of the last `c` in `text`, or -1 where it has none.
pub open spec fn spec_last_index(text: Seq<char>, c: char) -> int
    decreases text.len(),
{
    if text.len() == 0 {
        -1
    } else if text.last() == c {
        text.len() - 1
    } else {
        spec_last_index(text.drop_last(), c)
    }
}

/// The extension of a bare file name: the text after its final `.`, where
/// that `.` is not the name's first character.
pub open spec fn spec_plain_extension(name: Seq<char>) -> Option<Seq<char>> {
    if spec_last_index(name, '.') > 0 {
        Some(name.skip(spec_last_index(name, '.') + 1))
    } else {
        None
    }
}

/// The last component of a `/`-separated path: the text after its last `/`.
pub open spec fn spec_file_name(path: Seq<char>) -> Seq<char> {
    path.skip(spec_last_index(path, '/') + 1)
}

/// A path whose file name is its text after the last `/` on every platform:
/// it holds no `\` and no `:`, does not start with `//`, and its last
/// component is not empty, `.` or `..`.
pub open spec fn is_plain_file_path(path: Seq<char>) -> bool {
    &&& !path.contains('\\')
    &&& !path.contains(':')
    &&& !(path.len() >= 2 && path[0] == '/' && path[1] == '/')
    &&& spec_file_name(path).len() > 0
    &&& spec_file_name(path) != "."@
    &&& spec_file_name(path) != ".."@
}

/// Calls `std::path::Path::extension` on `path`, as text. std reads the
/// extension from the file name, the path's last component; `/` separates
/// components on every platform, `\` and `:` only on some. So the contract
/// claims: without an embedded `.` there is no extension; an extension is
/// what follows the file name's final `.`, so it holds no `.` and no `/`;
/// and where the path holds no `\` or `:` and ends in a file name, the
/// extension is the text after that name's final `.`, unless that `.` is
/// the name's first character.
#[verifier::external_body]
fn extension_of(path: &str) -> (extension: Option<String>)
    ensures
        !path@.contains('.') ==> extension is None,
        extension matches Some(text) ==> !text@.contains('.') && !text@.contains('/'),
        is_plain_file_path(path@) ==> (match extension {
            Some(text) => spec_plain_extension(spec_file_name(path@)) == Some(text@),
            None => spec_plain_extension(spec_file_name(path@)) is None,
        }),
{
    std::path::Path::new(path).extension().and_then(|extension| extension.to_str()).map(
        |extension| extension.to_owned(),
    )
}

/// The content type served for a file extension.
pub open spec fn spec_content_type(extension: Option<Seq<char>>) -> Seq<char> {
    match extension {
        Some(e) => if e == "html"@ {
            "text/html; charset=utf-8"@
        } else if e == "js"@ {
            "text/javascript; charset=utf-8"@
        } else if e == "wasm"@ {
            "application/wasm"@
        } else if e == "css"@ {
            "text/css; charset=utf-8"@
        } else if e == "json"@ {
            "application/json; charset=utf-8"@
        } else if e == "toml"@ {
            "text/plain; charset=utf-8"@
        } else if e == "png"@ {
            "image/png"@
        } else if e == "jpg"@ || e == "jpeg"@ {
            "image/jpeg"@
        } else if e == "gif"@ {
            "image/gif"@
        } else if e == "svg"@ {
            "image/svg+xml"@
        } else {
            "application/octet-stream"@
        },
        None => "application/octet-stream"@,
    }
}

/// The content type served for a file extension.
pub fn content_type_for_extension(extension: Option<&str>) -> (content_type: &'static str)
    ensures
        content_type@ == spec_content_type(
            match extension {
                Some(e) => Some(e@),
                None => None,
            },
        ),
{
    match extension {
        Some(e) => {
            let e = chars_of(e);
            if text_is(e.as_slice(), "html") {
                "text/html; charset=utf-8"
            } else if text_is(e.as_slice(), "js") {
                "text/javascript; charset=utf-8"
            } else if text_is(e.as_slice(), "wasm") {
                "application/wasm"
            } else if text_is(e.as_slice(), "css") {
                "text/css; charset=utf-8"
            } else if text_is(e.as_slice(), "json") {
                "application/json; charset=utf-8"
            } else if text_is(e.as_slice(), "toml") {
                "text/plain; charset=utf-8"
            } else if text_is(e.as_slice(), "png") {
                "image/png"
            } else if text_is(e.as_slice(), "jpg") || text_is(e.as_slice(), "jpeg") {
                "image/jpeg"
            } else if text_is(e.as_slice(), "gif") {
                "image/gif"
            } else if text_is(e.as_slice(), "svg") {
                "image/svg+xml"
            } else {
                "application/octet-stream"
            }
        },
        None => "application/octet-stream",
    }
}

/// The content type served for the file at `path`.
pub fn content_type(path: &str) -> (content_type: &'static str)
    ensures
        exists|extension: Option<Seq<char>>| content_type@ == spec_content_type(extension) && (extension matches Some(
            text,
        ) ==> !text.contains('.') && !text.contains('/')),
        !path@.contains('.') ==> content_type@ == "application/octet-stream"@,
        is_plain_file_path(path@) ==> content_type@ == spec_content_type(
            spec_plain_extension(spec_file_name(path@)),
        ),
{
    match extension_of(path) {
        Some(extension) => content_type_for_extension(Some(extension.as_str())),
        None => content_type_for_extension(None),
    }
}

/// The start of the web page that loads a wasm build, up to the module name.
pub open spec fn spec_index_html_head() -> Seq<char> {
    "<!doctype html>\n<html lang=\"en\">\n  <head>\n    <meta charset=\"utf-8\" />\n    <meta name=\"viewport\" content=\"width=device-width, initial-scale=1\" />\n    <title>Seishin Web</title>\n    <style>\n      html, body { margin: 0; min-height: 100%; background: #111; }\n      canvas { display: block; margin: auto; outline: none; }\n    </style>\n  </head>\n  <body>\n    <script type=\"module\">\n      import init from './"@
}

/// The rest of the web page after the module name.
pub open spec fn spec_index_html_tail() -> Seq<char> {
    ".js';\n      init();\n    </script>\n  </body>\n</html>\n"@
}

/// The web page that loads the wasm build named `out_name`.
pub fn web_index_html(out_name: &str) -> (html: String)
    ensures
        html@ == spec_index_html_head() + out_name@ + spec_index_html_tail(),
{
    module_message(
        "<!doctype html>\n<html lang=\"en\">\n  <head>\n    <meta charset=\"utf-8\" />\n    <meta name=\"viewport\" content=\"width=device-width, initial-scale=1\" />\n    <title>Seishin Web</title>\n    <style>\n      html, body { margin: 0; min-height: 100%; background: #111; }\n      canvas { display: block; margin: auto; outline: none; }\n    </style>\n  </head>\n  <body>\n    <script type=\"module\">\n      import init from './",
        out_name,
        ".js';\n      init();\n    </script>\n  </body>\n</html>\n",
    )
}

// ---------------------------------------------------------------------------
// Dependency audit

/// A direct external dependency with its category, what to do with it, and why.
#[derive(Debug, Clone, Copy, PartialEq, Eq)]
pub struct DependencyAuditEntry {
    pub name: &'static str,
    pub category: &'static str,
    pub recommendation: &'static str,
    pub notes: &'static str,
}

/// The audited dependencies as (name, category, recommendation, notes).
pub open spec fn spec_audit_table() -> Seq<(Seq<char>, Seq<char>, Seq<char>, Seq<char>)> {
    seq![
        ("bytemuck"@, "backend"@, "keep"@, "Needed for renderer vertex/uniform POD casts; gated by render backend."@),
        ("image"@, "convenience"@, "keep optional"@, "PNG is the only raster decode format; disabled by no-default builds and still covered by loader tests."@),
        ("js-sys"@, "backend"@, "keep web-only"@, "Used for browser byte buffers during web asset preload."@),
        ("kira"@, "backend"@, "keep optional native-only"@, "Provides desktop audio playback; target-gated away from wasm."@),
        ("raw-window-handle"@, "backend"@, "keep"@, "Required to pass native window/display handles into the renderer backend."@),
        ("serde"@, "serialization/config"@, "keep"@, "Core scene/resource/config serialization path."@),
        ("serde_json"@, "tooling"@, "keep"@, "Used for generated web manifests in xtask/runtime preload."@),
        ("toml"@, "serialization/config"@, "keep"@, "Current data-driven scene/resource format."@),
        ("tracing"@, "tooling"@, "keep optional"@, "Facade logging hook; behind the logging feature."@),
        ("tracing-subscriber"@, "tooling"@, "keep optional"@, "Default desktop logging setup; behind the logging feature."@),
        ("wasm-bindgen"@, "backend"@, "keep web-only"@, "Required for wasm startup and browser API bindings."@),
        ("wasm-bindgen-futures"@, "backend"@, "keep web-only"@, "Used for async browser fetch/preload bridging."@),
        ("web-sys"@, "backend"@, "keep web-only"@, "Browser window/canvas/audio/fetch APIs."@),
        ("wgpu"@, "backend"@, "keep optional"@, "Primary renderer backend; gated by render-wgpu."@),
        ("winit"@, "backend"@, "keep optional"@, "Desktop/web window and event loop integration; gated by runtime features."@)
    ]
}

/// An audit entry as (name, category, recommendation, notes).
pub open spec fn audit_entry_view(entry: DependencyAuditEntry) -> (
    Seq<char>,
    Seq<char>,
    Seq<char>,
    Seq<char>,
) {
    (entry.name@, entry.category@, entry.recommendation@, entry.notes@)
}

/// The audited direct external dependencies, by name.
pub fn dependency_audit_entries() -> (entries: Vec<DependencyAuditEntry>)
    ensures
        entries@.map_values(|entry: DependencyAuditEntry| audit_entry_view(entry))
            == spec_audit_table(),
{
    let mut entries: Vec<DependencyAuditEntry> = Vec::new();
    entries.push(DependencyAuditEntry {
        name: "bytemuck",
        category: "backend",
        recommendation: "keep",
        notes: "Needed for renderer vertex/uniform POD casts; gated by render backend.",
    });
    entries.push(DependencyAuditEntry {
        name: "image",
        category: "convenience",
        recommendation: "keep optional",
        notes: "PNG is the only raster decode format; disabled by no-default builds and still covered by loader tests.",
    });
    entries.push(DependencyAuditEntry {
        name: "js-sys",
        category: "backend",
        recommendation: "keep web-only",
        notes: "Used for browser byte buffers during web asset preload.",
    });
    entries.push(DependencyAuditEntry {
        name: "kira",
        category: "backend",
        recommendation: "keep optional native-only",
        notes: "Provides desktop audio playback; target-gated away from wasm.",
    });
    entries.push(DependencyAuditEntry {
        name: "raw-window-handle",
        category: "backend",
        recommendation: "keep",
        notes: "Required to pass native window/display handles into the renderer backend.",
    });
    entries.push(DependencyAuditEntry {
        name: "serde",
        category: "serialization/config",
        recommendation: "keep",
        notes: "Core scene/resource/config serialization path.",
    });
    entries.push(DependencyAuditEntry {
        name: "serde_json",
        category: "tooling",
        recommendation: "keep",
        notes: "Used for generated web manifests in xtask/runtime preload.",
    });
    entries.push(DependencyAuditEntry {
        name: "toml",
        category: "serialization/config",
        recommendation: "keep",
        notes: "Current data-driven scene/resource format.",
    });
    entries.push(DependencyAuditEntry {
        name: "tracing",
        category: "tooling",
        recommendation: "keep optional",
        notes: "Facade logging hook; behind the logging feature.",
    });
    entries.push(DependencyAuditEntry {
        name: "tracing-subscriber",
        category: "tooling",
        recommendation: "keep optional",
        notes: "Default desktop logging setup; behind the logging feature.",
    });
    entries.push(DependencyAuditEntry {
        name: "wasm-bindgen",
        category: "backend",
        recommendation: "keep web-only",
        notes: "Required for wasm startup and browser API bindings.",
    });
    entries.push(DependencyAuditEntry {
        name: "wasm-bindgen-futures",
        category: "backend",
        recommendation: "keep web-only",
        notes: "Used for async browser fetch/preload bridging.",
    });
    entries.push(DependencyAuditEntry {
        name: "web-sys",
        category: "backend",
        recommendation: "keep web-only",
        notes: "Browser window/canvas/audio/fetch APIs.",
    });
    entries.push(DependencyAuditEntry {
        name: "wgpu",
        category: "backend",
        recommendation: "keep optional",
        notes: "Primary renderer backend; gated by render-wgpu.",
    });
    entries.push(DependencyAuditEntry {
        name: "winit",
        category: "backend",
        recommendation: "keep optional",
        notes: "Desktop/web window and event loop integration; gated by runtime features.",
    });
    assert(entries@.map_values(|entry: DependencyAuditEntry| audit_entry_view(entry))
        =~= spec_audit_table());
    entries
}

/// The table row of an audit entry.
pub open spec fn spec_audit_row(entry: (Seq<char>, Seq<char>, Seq<char>, Seq<char>)) -> Seq<char> {
    "| `"@ + entry.0 + "` | "@ + entry.1 + " | "@ + entry.2 + " | "@ + entry.3 + " |\n"@
}

/// The table rows of the audit entries, in order.
pub open spec fn spec_audit_rows(entries: Seq<(Seq<char>, Seq<char>, Seq<char>, Seq<char>)>) -> Seq<
    char,
>
    decreases entries.len(),
{
    if entries.len() == 0 {
        seq![]
    } else {
        spec_audit_rows(entries.drop_last()) + spec_audit_row(entries.last())
    }
}

/// The heading and table header of the audit report.
pub open spec fn spec_audit_header() -> Seq<char> {
    "# Dependency Audit\n\n| dependency | category | recommendation | notes |\n| --- | --- | --- | --- |\n"@
}

/// The feature checks and image format policy that close the audit report.
pub open spec fn spec_audit_footer() -> Seq<char> {
    "\nFeature checks:\n- `seishin_no_default_wasm` keeps a no-default build in the workspace tests.\n- Desktop runtime initialization uses an internal no-dependency `block_on` helper.\n- `seishin_audio/kira-backend` is optional and native-target gated.\n- `seishin_audio/web` carries browser audio bindings separately from native audio.\n- CI builds the wasm example once on Linux while desktop validation runs on Linux, Windows, and macOS.\n\nImage format policy:\n- Seishin engine asset loading supports PNG raster textures through the optional `seishin_assets/png` feature.\n- No-default builds do not decode raster images; they can still read raw asset bytes for custom pipelines.\n- An internal PNG replacement is deferred until the project can justify owning PNG chunk, filter, and zlib/deflate maintenance.\n"@
}

/// Appends one table row per audit entry, in order.
fn append_audit_rows(report: &mut String, entries: &Vec<DependencyAuditEntry>)
    ensures
        final(report)@ == old(report)@ + spec_audit_rows(
            entries@.map_values(|entry: DependencyAuditEntry| audit_entry_view(entry)),
        ),
{
    let ghost table = entries@.map_values(|entry: DependencyAuditEntry| audit_entry_view(entry));
    let ghost start = report@;
    let mut i: usize = 0;
    assert(table.take(0) =~= Seq::<(Seq<char>, Seq<char>, Seq<char>, Seq<char>)>::empty());
    assert(report@ =~= start + spec_audit_rows(table.take(0)));
    while i < entries.len()
        invariant
            i <= entries@.len(),
            table == entries@.map_values(|entry: DependencyAuditEntry| audit_entry_view(entry)),
            report@ == start + spec_audit_rows(table.take(i as int)),
        decreases entries@.len() - i,
    {
        let entry = entries[i];
        assert(audit_entry_view(entry) == table[i as int]);
        report.append("| `");
        report.append(entry.name);
        report.append("` | ");
        report.append(entry.category);
        report.append(" | ");
        report.append(entry.recommendation);
        report.append(" | ");
        report.append(entry.notes);
        report.append(" |\n");
        proof {
            let taken = table.take(i + 1);
            assert(taken.drop_last() =~= table.take(i as int));
            assert(taken.last() == table[i as int]);
        }
        i = i + 1;
    }
    assert(table.take(i as int) =~= table);
}

/// The dependency audit report in Markdown: a table of the audited
/// dependencies followed by the feature checks and the image format policy.
pub fn render_dependency_audit() -> (report: String)
    ensures
        report@ == spec_audit_header() + spec_audit_rows(spec_audit_table()) + spec_audit_footer(),
{
    let entries = dependency_audit_entries();
    let mut report = "# Dependency Audit\n\n| dependency | category | recommendation | notes |\n| --- | --- | --- | --- |\n".to_owned();
    append_audit_rows(&mut report, &entries);
    report.append("\nFeature checks:\n- `seishin_no_default_wasm` keeps a no-default build in the workspace tests.\n- Desktop runtime initialization uses an internal no-dependency `block_on` helper.\n- `seishin_audio/kira-backend` is optional and native-target gated.\n- `seishin_audio/web` carries browser audio bindings separately from native audio.\n- CI builds the wasm example once on Linux while desktop validation runs on Linux, Windows, and macOS.\n\nImage format policy:\n- Seishin engine asset loading supports PNG raster textures through the optional `seishin_assets/png` feature.\n- No-default builds do not decode raster images; they can still read raw asset bytes for custom pipelines.\n- An internal PNG replacement is deferred until the project can justify owning PNG chunk, filter, and zlib/deflate maintenance.\n");
    report
}

} // verus!
