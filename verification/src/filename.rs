//! What a downloaded file is called: what the server suggests, else the end of the URL's path, else
//! a fixed name. Whatever is suggested, the result is one path component.

use crate::address;
use crate::address::Address;
use crate::text;
use vstd::prelude::*;
use vstd::string::StrSliceExecFns;

verus! {

/// The name of a file for which nothing suggests one.
pub const FALLBACK_NAME: &'static str = "download";

/// The character parts the components of a path, on some system.
pub open spec fn is_separator(c: char) -> bool {
    c == '/' || c == '\\'
}

/// What stands behind the last separator.
pub open spec fn last_component(path: Seq<char>) -> Seq<char>
    decreases path.len(),
{
    if path.len() == 0 || is_separator(path.last()) {
        Seq::empty()
    } else {
        last_component(path.drop_last()).push(path.last())
    }
}

/// The name that a suggestion or a path ends in, where that can be the name of a file.
pub open spec fn component(path: Seq<char>) -> Option<Seq<char>> {
    let name = last_component(path);
    if name.len() == 0 || name == "."@ || name == ".."@ {
        None
    } else {
        Some(name)
    }
}

/// Where a field of a header ends: at the next semicolon outside quotation marks, else with the
/// header.
pub open spec fn field_end(header: Seq<char>, from: int, quoted: bool) -> int
    decreases header.len() - from,
{
    if from < 0 || from >= header.len() {
        header.len() as int
    } else if header[from] == ';' && !quoted {
        from
    } else {
        field_end(
            header,
            from + 1,
            if header[from] == '"' {
                !quoted
            } else {
                quoted
            },
        )
    }
}

/// A value without the quotation marks around it.
pub open spec fn unquoted(value: Seq<char>) -> Seq<char> {
    if value.len() >= 2 && value[0] == '"' && value.last() == '"' {
        value.subrange(1, value.len() - 1)
    } else {
        value
    }
}

/// The value of a field, if it is the one that suggests a file name.
pub open spec fn name_field(field: Seq<char>) -> Option<Seq<char>> {
    let at = text::place_of(field, '=', 0);
    if at < field.len() && text::same_folded(
        text::trimmed(field.subrange(0, at)),
        "filename"@,
    ) {
        Some(unquoted(text::trimmed(field.subrange(at + 1, field.len() as int))))
    } else {
        None
    }
}

/// What the fields of a `Content-Disposition` header, from a place on, suggest first.
pub open spec fn suggestion(header: Seq<char>, from: int) -> Option<Seq<char>>
    decreases header.len() - from,
{
    if from < 0 || from > header.len() {
        None
    } else {
        let end = field_end(header, from, false);
        match name_field(header.subrange(from, end)) {
            Some(name) => Some(name),
            None => if from <= end < header.len() {
                suggestion(header, end + 1)
            } else {
                None
            },
        }
    }
}

/// The first that can name a file: the header's suggestion, the end of the path, the fixed name.
pub open spec fn chosen(disposition: Option<Seq<char>>, path: Option<Seq<char>>) -> Seq<char> {
    let offered = match disposition {
        Some(header) => match suggestion(header, 0) {
            Some(name) => component(name),
            None => None,
        },
        None => None,
    };
    let ending = match path {
        Some(path) => component(path),
        None => None,
    };
    match offered {
        Some(name) => name,
        None => match ending {
            Some(name) => name,
            None => FALLBACK_NAME@,
        },
    }
}

/// The path of a URL, where the text is one.
pub open spec fn path_of(url: Seq<char>) -> Option<Seq<char>> {
    match address::parsed_url(url) {
        Some(address) => Some(address.path),
        None => None,
    }
}

fn separator(c: char) -> (yes: bool)
    ensures
        yes == is_separator(c),
{
    c == '/' || c == '\\'
}

/// A path ends in what stands behind a separator, if no other follows.
proof fn lemma_last_component(path: Seq<char>, at: int)
    requires
        0 <= at <= path.len(),
        at > 0 ==> is_separator(path[at - 1]),
        forall|i: int| at <= i < path.len() ==> !is_separator(#[trigger] path[i]),
    ensures
        last_component(path) == path.subrange(at, path.len() as int),
    decreases path.len(),
{
    if at == path.len() {
        assert(path.subrange(at, path.len() as int) =~= Seq::<char>::empty());
    } else {
        let front = path.drop_last();
        assert(!is_separator(path[path.len() - 1]));
        assert forall|i: int| at <= i < front.len() implies !is_separator(#[trigger] front[i]) by {
            assert(!is_separator(path[i]));
        }
        lemma_last_component(front, at);
        assert(front.subrange(at, front.len() as int).push(path.last()) =~= path.subrange(
            at,
            path.len() as int,
        ));
    }
}

/// The name that a suggestion or a path ends in, where that can be the name of a file.
pub fn component_of(path: &str) -> (name: Option<&str>)
    ensures
        text::viewed(name) == component(path@),
{
    let length: usize = path.unicode_len();
    let mut at: usize = length;
    while at > 0 && !separator(path.get_char(at - 1))
        invariant
            length == path@.len(),
            at <= length,
            forall|i: int| at <= i < length ==> !is_separator(#[trigger] path@[i]),
        decreases at,
    {
        at = at - 1;
    }
    proof {
        lemma_last_component(path@, at as int);
    }
    let name = path.substring_char(at, length);
    if at == length || text::same(name, ".") || text::same(name, "..") {
        None
    } else {
        Some(name)
    }
}

/// Where the field that starts at `from` ends.
fn end_of_field(header: &str, from: usize) -> (end: usize)
    requires
        from <= header@.len(),
    ensures
        end == field_end(header@, from as int, false),
        from <= end <= header@.len(),
{
    let length: usize = header.unicode_len();
    let mut at: usize = from;
    let mut quoted: bool = false;
    while at < length && (quoted || header.get_char(at) != ';')
        invariant
            length == header@.len(),
            from <= at <= length,
            field_end(header@, from as int, false) == field_end(header@, at as int, quoted),
        decreases length - at,
    {
        if header.get_char(at) == '"' {
            quoted = !quoted;
        }
        at = at + 1;
    }
    at
}

/// The value of a field, if it is the one that suggests a file name.
fn name_in(field: &str) -> (name: Option<&str>)
    ensures
        text::viewed(name) == name_field(field@),
{
    let length: usize = field.unicode_len();
    let at: usize = text::find(field, '=', 0);
    let name = text::trim(field.substring_char(0, at));
    if at == length || !text::same_ignoring_case(name, "filename") {
        return None;
    }
    let value = text::trim(field.substring_char(at + 1, length));
    let count: usize = value.unicode_len();
    if count >= 2 && value.get_char(0) == '"' && value.get_char(count - 1) == '"' {
        Some(value.substring_char(1, count - 1))
    } else {
        Some(value)
    }
}

/// What a `Content-Disposition` header suggests as the file's name.
pub fn suggested_name(header: &str) -> (name: Option<&str>)
    ensures
        text::viewed(name) == suggestion(header@, 0),
{
    let length: usize = header.unicode_len();
    let mut from: usize = 0;
    loop
        invariant
            length == header@.len(),
            from <= length,
            suggestion(header@, 0) == suggestion(header@, from as int),
        decreases length - from,
    {
        let end: usize = end_of_field(header, from);
        if let Some(name) = name_in(header.substring_char(from, end)) {
            return Some(name);
        }
        if end == length {
            return None;
        }
        from = end + 1;
    }
}

/// The first that can name a file: the header's suggestion, the end of the path, the fixed name.
pub fn choose_name(disposition: Option<&str>, path: Option<&str>) -> (name: String)
    ensures
        name@ == chosen(text::viewed(disposition), text::viewed(path)),
{
    if let Some(header) = disposition {
        if let Some(suggested) = suggested_name(header) {
            if let Some(name) = component_of(suggested) {
                return name.to_owned();
            }
        }
    }
    if let Some(path) = path {
        if let Some(name) = component_of(path) {
            return name.to_owned();
        }
    }
    FALLBACK_NAME.to_owned()
}

/// Name the file that a URL leads to, given what the server suggests in `Content-Disposition`.
pub fn resolve(disposition: Option<&str>, url: &str) -> (name: String)
    ensures
        name@ == chosen(text::viewed(disposition), path_of(url@)),
{
    match Address::parse(url) {
        Some(address) => choose_name(disposition, Some(address.path.as_str())),
        None => choose_name(disposition, None),
    }
}

proof fn lemma_no_separator(path: Seq<char>)
    ensures
        forall|i: int|
            0 <= i < last_component(path).len() ==> !is_separator(
                #[trigger] last_component(path)[i],
            ),
    decreases path.len(),
{
    if path.len() > 0 && !is_separator(path.last()) {
        let front = last_component(path.drop_last());
        lemma_no_separator(path.drop_last());
        assert forall|i: int| 0 <= i < last_component(path).len() implies !is_separator(
            #[trigger] last_component(path)[i],
        ) by {
            if i < front.len() {
                assert(last_component(path)[i] == front[i]);
            }
        }
    }
}

/// Whatever a server or a URL suggests, the file is called by one path component that is not the
/// directory itself or the one above it: no name leads out of the target directory.
pub proof fn law_a_name_is_one_path_component(
    disposition: Option<Seq<char>>,
    path: Option<Seq<char>>,
)
    ensures
        ({
            let name = chosen(disposition, path);
            &&& name.len() > 0
            &&& name != "."@
            &&& name != ".."@
            &&& forall|i: int| 0 <= i < name.len() ==> !is_separator(#[trigger] name[i])
        }),
{
    reveal_strlit("download");
    reveal_strlit(".");
    reveal_strlit("..");
    assert("download"@.len() == 8 && "."@.len() == 1 && ".."@.len() == 2);
    if let Some(header) = disposition {
        if let Some(name) = suggestion(header, 0) {
            lemma_no_separator(name);
        }
    }
    if let Some(path) = path {
        lemma_no_separator(path);
    }
}

/// The text can stand as the name of a file: it is not empty, holds no separator and is neither of
/// the two names of directories.
pub open spec fn names_a_file(name: Seq<char>) -> bool {
    &&& name.len() > 0
    &&& name != "."@
    &&& name != ".."@
    &&& forall|i: int| 0 <= i < name.len() ==> !is_separator(#[trigger] name[i])
}

/// A path names the file that stands behind its last separator, whatever stands before it, and
/// nothing where it ends in a separator.
pub proof fn law_a_path_names_its_last_component(front: Seq<char>, separator: char, name: Seq<char>)
    requires
        separator == '/' || separator == '\\',
        names_a_file(name),
    ensures
        component(name) == Some(name),
        component(front + seq![separator] + name) == Some(name),
        component(front + seq![separator]) is None,
        component(Seq::<char>::empty()) is None,
{
    let path = front + seq![separator] + name;
    let at = front.len() as int + 1;
    assert forall|i: int| at <= i < path.len() implies !is_separator(#[trigger] path[i]) by {
        assert(path[i] == name[i - at]);
    }
    assert(path[at - 1] == separator);
    lemma_last_component(path, at);
    assert(path.subrange(at, path.len() as int) =~= name);
    lemma_last_component(name, 0);
    assert(name.subrange(0, name.len() as int) =~= name);
    let ended = front + seq![separator];
    assert(ended.last() == separator);
}

/// A usable suggestion of the server comes first, then a usable end of the path, then the fixed
/// name.
pub proof fn law_a_suggestion_comes_before_the_path(
    disposition: Option<Seq<char>>,
    path: Option<Seq<char>>,
    name: Seq<char>,
)
    ensures
        ({
            let offered = disposition is Some && suggestion(disposition->0, 0) is Some && component(
                suggestion(disposition->0, 0)->0,
            ) is Some;
            let ending = path is Some && component(path->0) is Some;
            &&& offered ==> component(suggestion(disposition->0, 0)->0) == Some(
                chosen(disposition, path),
            )
            &&& !offered && ending ==> component(path->0) == Some(chosen(disposition, path))
            &&& !offered && !ending ==> chosen(disposition, path) == "download"@
        }),
{
}

proof fn lemma_field_end(header: Seq<char>, from: int, quoted: bool, end: int)
    requires
        0 <= from <= end <= header.len(),
        end < header.len() ==> header[end] == ';',
        !quoted,
        forall|i: int| from <= i < end ==> #[trigger] header[i] != ';' && header[i] != '"',
    ensures
        field_end(header, from, quoted) == end,
    decreases end - from,
{
    if from < end {
        assert(header[from] != ';' && header[from] != '"');
        lemma_field_end(header, from + 1, quoted, end);
    }
}

proof fn lemma_quoted_end(header: Seq<char>, from: int, close: int)
    requires
        0 <= from <= close,
        close == header.len() - 1,
        header[close] == '"',
        forall|i: int| from <= i < close ==> #[trigger] header[i] != '"',
    ensures
        field_end(header, from, true) == header.len(),
    decreases close - from,
{
    if from < close {
        assert(header[from] != '"');
        lemma_quoted_end(header, from + 1, close);
    } else {
        assert(field_end(header, from + 1, false) == header.len());
    }
}

/// A name that a server suggests in quotation marks is the file's name, semicolons and all.
pub proof fn law_a_quoted_suggestion_is_taken(kind: Seq<char>, name: Seq<char>, path: Option<Seq<char>>)
    requires
        forall|i: int|
            0 <= i < kind.len() ==> #[trigger] kind[i] != ';' && kind[i] != '"' && kind[i] != '=',
        forall|i: int| 0 <= i < name.len() ==> #[trigger] name[i] != '"',
        names_a_file(name),
    ensures
        suggestion(kind + "; filename=\""@ + name + "\""@, 0) == Some(name),
        chosen(Some(kind + "; filename=\""@ + name + "\""@), path) == name,
{
    reveal_strlit("; filename=\"");
    reveal_strlit("\"");
    reveal_strlit("filename");
    let middle = "; filename=\""@;
    let mark = "\""@;
    assert(middle.len() == 12 && mark.len() == 1 && "filename"@.len() == 8);
    let header = kind + middle + name + mark;
    let k = kind.len() as int;
    assert(header.len() == k + 13 + name.len());
    assert forall|i: int| 0 <= i < k implies #[trigger] header[i] == kind[i] && header[i] != ';'
        && header[i] != '"' && header[i] != '=' by {
        assert(kind[i] != ';');
    }
    assert forall|i: int| k <= i < k + 12 implies #[trigger] header[i] == middle[i - k] by {}
    assert forall|i: int| k + 12 <= i < k + 12 + name.len() implies #[trigger] header[i] == name[i
        - k - 12] by {}
    assert(header[k] == ';');
    lemma_field_end(header, 0, false, k);
    let first = header.subrange(0, k);
    assert(first =~= kind);
    text::lemma_known_place(kind, '=', 0, k);
    assert(name_field(kind) is None);
    let start = k + 1;
    let close = header.len() - 1;
    assert(header[close] == '"');
    assert(header[k + 11] == '"');
    assert forall|i: int| start <= i < k + 11 implies #[trigger] header[i] != ';' && header[i]
        != '"' by {
        assert(header[i] == middle[i - k]);
    }
    assert forall|i: int| k + 12 <= i < close implies #[trigger] header[i] != '"' by {
        assert(header[i] == name[i - k - 12]);
    }
    lemma_quoted_end(header, k + 12, close);
    lemma_field_before_mark(header, start, k + 11);
    assert(field_end(header, start, false) == header.len());
    let field = header.subrange(start, header.len() as int);
    assert(field.len() == 12 + name.len());
    assert forall|i: int| 0 <= i < 11 implies #[trigger] field[i] == middle[i + 1] by {
        assert(field[i] == header[i + start]);
    }
    assert(field[9] == '=');
    assert forall|i: int| 0 <= i < 9 implies #[trigger] field[i] != '=' by {
        assert(field[i] == middle[i + 1]);
    }
    text::lemma_known_place(field, '=', 0, 9);
    let label = field.subrange(0, 9);
    assert(label[0] == ' ');
    assert(label.skip(1) =~= "filename"@);
    assert(text::trim_front(label) == text::trim_front(label.skip(1)));
    assert(!text::is_white("filename"@[0]) && !text::is_white("filename"@.last()));
    text::lemma_bare_ends("filename"@);
    assert(text::trimmed(label) == "filename"@);
    text::law_only_ascii_case_is_disregarded('a', 'a', "filename"@, "filename"@);
    let value = field.subrange(10, field.len() as int);
    assert(value.len() == name.len() + 2);
    assert(value[0] == field[10]);
    assert(value.last() == header[close]);
    assert(!text::is_white('"'));
    text::lemma_bare_ends(value);
    assert forall|i: int| 0 <= i < name.len() implies #[trigger] value.subrange(
        1,
        value.len() - 1,
    )[i] == name[i] by {
        assert(value[i + 1] == field[i + 11]);
        assert(field[i + 11] == header[i + k + 12]);
    }
    assert(value.subrange(1, value.len() - 1) =~= name);
    assert(name_field(field) == Some(name));
    assert(suggestion(header, start) == Some(name));
    law_a_path_names_its_last_component(Seq::<char>::empty(), '/', name);
}

proof fn lemma_field_before_mark(header: Seq<char>, from: int, mark: int)
    requires
        0 <= from <= mark < header.len(),
        header[mark] == '"',
        forall|i: int| from <= i < mark ==> #[trigger] header[i] != ';' && header[i] != '"',
    ensures
        field_end(header, from, false) == field_end(header, mark + 1, true),
    decreases mark - from,
{
    if from < mark {
        assert(header[from] != ';' && header[from] != '"');
        lemma_field_before_mark(header, from + 1, mark);
    }
}

} // verus!
