//! The JSON texts that the proxy writes, and the places in a status
//! document that it overwrites. Writing a string as JSON is left to
//! `serde_json`; finding the places of two members in a document is done
//! here, on the characters, so that all others stay as they are.

use crate::text::{push_char, spliced, to_chars};
use vstd::prelude::*;
use vstd::string::StringExecFns;

verus! {

/// What `serde_json::to_string` returns for a string: the string as a JSON
/// string, between quotes and with its escapes.
pub uninterp spec fn json_string(text: Seq<char>) -> Seq<char>;

/// `serde_json::to_string` on a string: the string as JSON. Serializing a
/// string cannot fail, so the result is always that of the call.
#[verifier::external_body]
fn quote(text: &str) -> (quoted: String)
    ensures
        quoted@ == json_string(text@),
{
    match serde_json::to_string(text) {
        Ok(quoted) => quoted,
        Err(_) => String::new(),
    }
}

/// The chat component that shows `text`: a JSON object with the one member
/// `text`.
pub open spec fn chat_component(text: Seq<char>) -> Seq<char> {
    "{\"text\":"@ + json_string(text) + "}"@
}

/// The chat component that shows `text`.
pub fn chat_text(text: &str) -> (component: String)
    ensures
        component@ == chat_component(text@),
{
    let mut component: String = String::from_str("{\"text\":");
    let quoted: String = quote(text);
    component.append(quoted.as_str());
    component.append("}");
    component
}

/// A place in a text: from the character at `at` up to the one at `end`.
pub struct Span {
    pub at: int,
    pub end: int,
}

/// Whether `c` is white space between the parts of a document.
pub open spec fn is_space(c: char) -> bool {
    c == ' ' || c == '\n' || c == '\r' || c == '\t'
}

/// The first place from `i` on that holds no white space.
pub open spec fn after_space(s: Seq<char>, i: int) -> int
    decreases s.len() - i,
{
    if 0 <= i < s.len() && is_space(s[i]) {
        after_space(s, i + 1)
    } else {
        i
    }
}

/// The place after the quote that closes the string whose inside starts at
/// `i`. A character after a backslash closes nothing.
pub open spec fn string_end(s: Seq<char>, i: int) -> Option<int>
    decreases s.len() - i,
{
    if i < 0 || i >= s.len() {
        None
    } else if s[i] == '"' {
        Some(i + 1)
    } else if s[i] == '\\' {
        if i + 1 < s.len() {
            string_end(s, i + 2)
        } else {
            None
        }
    } else {
        string_end(s, i + 1)
    }
}

/// The place after the bracket that closes the object or array of which
/// `depth` brackets stand open at `i`. Brackets inside strings count for
/// nothing.
pub open spec fn nested_end(s: Seq<char>, i: int, depth: nat) -> Option<int>
    decreases s.len() - i,
{
    if i < 0 || i >= s.len() || depth == 0 {
        None
    } else if s[i] == '"' {
        match string_end(s, i + 1) {
            Some(after) => if i < after <= s.len() {
                nested_end(s, after, depth)
            } else {
                None
            },
            None => None,
        }
    } else if s[i] == '{' || s[i] == '[' {
        nested_end(s, i + 1, depth + 1)
    } else if s[i] == '}' || s[i] == ']' {
        if depth == 1 {
            Some(i + 1)
        } else {
            nested_end(s, i + 1, (depth - 1) as nat)
        }
    } else {
        nested_end(s, i + 1, depth)
    }
}

/// Whether `c` can stand in a number or in one of the words `true`,
/// `false` and `null`: it is no white space and ends no value.
pub open spec fn is_plain(c: char) -> bool {
    !is_space(c) && c != ',' && c != '}' && c != ']' && c != ':' && c != '"' && c != '{' && c
        != '['
}

/// The first place from `i` on that cannot stand in a number or a word.
pub open spec fn plain_end(s: Seq<char>, i: int) -> int
    decreases s.len() - i,
{
    if 0 <= i < s.len() && is_plain(s[i]) {
        plain_end(s, i + 1)
    } else {
        i
    }
}

/// The place after the value that starts at `i`: a string, an object, an
/// array, or a number or word.
pub open spec fn value_end(s: Seq<char>, i: int) -> Option<int> {
    if i < 0 || i >= s.len() {
        None
    } else if s[i] == '"' {
        string_end(s, i + 1)
    } else if s[i] == '{' || s[i] == '[' {
        nested_end(s, i + 1, 1)
    } else if plain_end(s, i) > i {
        Some(plain_end(s, i))
    } else {
        None
    }
}

/// The place of the value of the member `key` among the members of an
/// object, read from `i` on: `i` stands after the bracket that opens the
/// object or after the comma that ends a member. The name of a member is
/// taken as it is written between its quotes. Nothing where no member of
/// that name is found.
pub open spec fn member_from(s: Seq<char>, i: int, key: Seq<char>) -> Option<Span>
    decreases s.len() - i,
{
    let name = after_space(s, i);
    if i < 0 || name >= s.len() || s[name] != '"' {
        None
    } else {
        match string_end(s, name + 1) {
            None => None,
            Some(name_end) => {
                let colon = after_space(s, name_end);
                if colon >= s.len() || s[colon] != ':' {
                    None
                } else {
                    let value = after_space(s, colon + 1);
                    match value_end(s, value) {
                        None => None,
                        Some(end) => if s.subrange(name + 1, name_end - 1) == key {
                            Some(Span { at: value, end })
                        } else {
                            let comma = after_space(s, end);
                            if comma < s.len() && s[comma] == ',' && i < comma + 1 {
                                member_from(s, comma + 1, key)
                            } else {
                                None
                            }
                        },
                    }
                }
            },
        }
    }
}

/// The place of the value of the member `key` of the object that starts at
/// `at`. Nothing where no object starts there.
pub open spec fn member(s: Seq<char>, at: int, key: Seq<char>) -> Option<Span> {
    if 0 <= at < s.len() && s[at] == '{' {
        member_from(s, at + 1, key)
    } else {
        None
    }
}

/// The two places of a status document that the proxy overwrites: the
/// value of `description`, and the value of `name` in the object under
/// `version`, each where the document has it. Nothing at all where the
/// document is no object.
pub open spec fn spans_of(source: Seq<char>) -> Option<(Option<Span>, Option<Span>)> {
    let root = after_space(source, 0);
    if root < source.len() && source[root] == '{' {
        Some(
            (
                member(source, root, "description"@),
                match member(source, root, "version"@) {
                    Some(version) => member(source, version.at, "name"@),
                    None => None,
                },
            ),
        )
    } else {
        None
    }
}

fn skip_space(s: &Vec<char>, i: usize) -> (r: usize)
    requires
        i <= s@.len(),
    ensures
        r == after_space(s@, i as int),
        i <= r <= s@.len(),
{
    let mut k: usize = i;
    while k < s.len() && (s[k] == ' ' || s[k] == '\n' || s[k] == '\r' || s[k] == '\t')
        invariant
            i <= k <= s@.len(),
            after_space(s@, i as int) == after_space(s@, k as int),
        decreases s@.len() - k,
    {
        k = k + 1;
    }
    k
}

fn close_string(s: &Vec<char>, start: usize) -> (r: Option<usize>)
    requires
        start <= s@.len(),
    ensures
        match string_end(s@, start as int) {
            Some(end) => r matches Some(e) && e == end && start < end <= s@.len(),
            None => r is None,
        },
{
    let mut i: usize = start;
    loop
        invariant
            start <= i <= s@.len(),
            string_end(s@, start as int) == string_end(s@, i as int),
        decreases s@.len() - i,
    {
        if i >= s.len() {
            return None;
        }
        let c: char = s[i];
        if c == '"' {
            return Some(i + 1);
        }
        if c == '\\' {
            if i + 1 < s.len() {
                i = i + 2;
            } else {
                return None;
            }
        } else {
            i = i + 1;
        }
    }
}

fn close_nested(s: &Vec<char>, start: usize) -> (r: Option<usize>)
    requires
        1 <= start <= s@.len(),
    ensures
        match nested_end(s@, start as int, 1) {
            Some(end) => r matches Some(e) && e == end && start < end <= s@.len(),
            None => r is None,
        },
{
    let mut i: usize = start;
    let mut depth: usize = 1;
    loop
        invariant
            start <= i <= s@.len(),
            1 <= depth <= i,
            nested_end(s@, start as int, 1) == nested_end(s@, i as int, depth as nat),
        decreases s@.len() - i,
    {
        if i >= s.len() {
            return None;
        }
        let c: char = s[i];
        if c == '"' {
            match close_string(s, i + 1) {
                Some(after) => {
                    i = after;
                },
                None => {
                    return None;
                },
            }
        } else if c == '{' || c == '[' {
            depth = depth + 1;
            i = i + 1;
        } else if c == '}' || c == ']' {
            if depth == 1 {
                return Some(i + 1);
            }
            depth = depth - 1;
            i = i + 1;
        } else {
            i = i + 1;
        }
    }
}

fn skip_plain(s: &Vec<char>, i: usize) -> (r: usize)
    requires
        i <= s@.len(),
    ensures
        r == plain_end(s@, i as int),
        i <= r <= s@.len(),
{
    let mut k: usize = i;
    loop
        invariant
            i <= k <= s@.len(),
            plain_end(s@, i as int) == plain_end(s@, k as int),
        decreases s@.len() - k,
    {
        if k >= s.len() {
            return k;
        }
        let c: char = s[k];
        let plain: bool = !(c == ' ' || c == '\n' || c == '\r' || c == '\t') && c != ',' && c
            != '}' && c != ']' && c != ':' && c != '"' && c != '{' && c != '[';
        if !plain {
            return k;
        }
        k = k + 1;
    }
}

fn close_value(s: &Vec<char>, i: usize) -> (r: Option<usize>)
    requires
        i <= s@.len(),
    ensures
        match value_end(s@, i as int) {
            Some(end) => r matches Some(e) && e == end && i < end <= s@.len(),
            None => r is None,
        },
{
    if i >= s.len() {
        return None;
    }
    let c: char = s[i];
    if c == '"' {
        close_string(s, i + 1)
    } else if c == '{' || c == '[' {
        close_nested(s, i + 1)
    } else {
        let end: usize = skip_plain(s, i);
        if end > i {
            Some(end)
        } else {
            None
        }
    }
}

fn same_range(s: &Vec<char>, from: usize, to: usize, key: &Vec<char>) -> (r: bool)
    requires
        from <= to <= s@.len(),
    ensures
        r == (s@.subrange(from as int, to as int) == key@),
{
    if to - from != key.len() {
        return false;
    }
    let mut j: usize = 0;
    while j < key.len()
        invariant
            j <= key@.len(),
            to - from == key@.len(),
            to <= s@.len(),
            forall|k: int| 0 <= k < j ==> s@[from + k] == key@[k],
        decreases key@.len() - j,
    {
        if s[from + j] != key[j] {
            proof {
                assert(s@.subrange(from as int, to as int)[j as int] == s@[from + j]);
            }
            return false;
        }
        j = j + 1;
    }
    assert(s@.subrange(from as int, to as int) =~= key@);
    true
}

fn find_member_from(s: &Vec<char>, start: usize, key: &Vec<char>) -> (r: Option<(usize, usize)>)
    requires
        start <= s@.len(),
    ensures
        match member_from(s@, start as int, key@) {
            Some(span) => r matches Some((at, end)) && at == span.at && end == span.end && at
                < end <= s@.len(),
            None => r is None,
        },
{
    let mut i: usize = start;
    loop
        invariant
            start <= i <= s@.len(),
            member_from(s@, start as int, key@) == member_from(s@, i as int, key@),
        decreases s@.len() - i,
    {
        let name: usize = skip_space(s, i);
        if name >= s.len() || s[name] != '"' {
            return None;
        }
        let name_end: usize = match close_string(s, name + 1) {
            Some(end) => end,
            None => {
                return None;
            },
        };
        let colon: usize = skip_space(s, name_end);
        if colon >= s.len() || s[colon] != ':' {
            return None;
        }
        let value: usize = skip_space(s, colon + 1);
        let end: usize = match close_value(s, value) {
            Some(end) => end,
            None => {
                return None;
            },
        };
        if same_range(s, name + 1, name_end - 1, key) {
            return Some((value, end));
        }
        let comma: usize = skip_space(s, end);
        if comma < s.len() && s[comma] == ',' {
            i = comma + 1;
        } else {
            return None;
        }
    }
}

/// The place of the value of the member `key` of the object that starts at
/// `at`, in characters.
pub fn find_member(s: &Vec<char>, at: usize, key: &str) -> (r: Option<(usize, usize)>)
    ensures
        match member(s@, at as int, key@) {
            Some(span) => r matches Some((start, end)) && start == span.at && end == span.end
                && start < end <= s@.len(),
            None => r is None,
        },
{
    if at < s.len() && s[at] == '{' {
        let name: Vec<char> = to_chars(key);
        find_member_from(s, at + 1, &name)
    } else {
        None
    }
}

/// The two places of a status document that the proxy overwrites, in
/// characters: that of the description and that of the version name.
pub fn status_spans(source: &str) -> (r: Option<(Option<(usize, usize)>, Option<(usize, usize)>)>)
    ensures
        match spans_of(source@) {
            Some((description, name)) => r matches Some((d, n)) && span_of(d) == description
                && span_of(n) == name,
            None => r is None,
        },
{
    let chars: Vec<char> = to_chars(source);
    find_spans(&chars)
}

/// A place in characters as a place in the text.
pub open spec fn span_of(got: Option<(usize, usize)>) -> Option<Span> {
    match got {
        Some((at, end)) => Some(Span { at: at as int, end: end as int }),
        None => None,
    }
}

fn find_spans(chars: &Vec<char>) -> (r: Option<(Option<(usize, usize)>, Option<(usize, usize)>)>)
    ensures
        match spans_of(chars@) {
            Some((description, name)) => r matches Some((d, n)) && span_of(d) == description
                && span_of(n) == name && (d matches Some((at, end)) ==> at < end <= chars@.len())
                && (n matches Some((at, end)) ==> at < end <= chars@.len()),
            None => r is None,
        },
{
    let root: usize = skip_space(chars, 0);
    if root >= chars.len() || chars[root] != '{' {
        return None;
    }
    let description: Option<(usize, usize)> = find_member(chars, root, "description");
    let name: Option<(usize, usize)> = match find_member(chars, root, "version") {
        Some((at, _)) => find_member(chars, at, "name"),
        None => None,
    };
    Some((description, name))
}

/// `source` with `text` in the place `span`, where there is one.
pub open spec fn put(source: Seq<char>, span: Option<Span>, text: Seq<char>) -> Seq<char> {
    match span {
        Some(span) => spliced(source, span.at, (span.end - span.at) as nat, text),
        None => source,
    }
}

/// A status document with other texts in two places: `description_to` in
/// the place `description`, and `name_to` in the place `name`. The later
/// place is written first, so that the earlier one is still where it was.
/// Places that run into each other, which the values of two members never
/// do, leave the second place as it is.
pub open spec fn masked(
    source: Seq<char>,
    description: Option<Span>,
    description_to: Seq<char>,
    name: Option<Span>,
    name_to: Seq<char>,
) -> Seq<char> {
    match (description, name) {
        (Some(d), Some(n)) => if d.end <= n.at {
            put(put(source, name, name_to), description, description_to)
        } else if n.end <= d.at {
            put(put(source, description, description_to), name, name_to)
        } else {
            put(source, description, description_to)
        },
        (_, None) => put(source, description, description_to),
        (None, _) => put(source, name, name_to),
    }
}

/// The status document `source` as the client gets to see it: the chat
/// component that shows `motd` stands in the place of the description, and
/// `version_name` as a JSON string in the place of the version name. Every
/// character outside the two places stays. Nothing where the document is
/// no object.
pub open spec fn masked_status(
    source: Seq<char>,
    motd: Seq<char>,
    version_name: Seq<char>,
) -> Option<Seq<char>> {
    match spans_of(source) {
        Some((description, name)) => Some(
            masked(source, description, chat_component(motd), name, json_string(version_name)),
        ),
        None => None,
    }
}

fn splice(s: &Vec<char>, at: usize, end: usize, with: &str) -> (r: String)
    requires
        at <= end <= s@.len(),
    ensures
        r@ == spliced(s@, at as int, (end - at) as nat, with@),
{
    let mut out: String = String::new();
    let mut i: usize = 0;
    while i < at
        invariant
            i <= at <= s@.len(),
            out@ == s@.subrange(0, i as int),
        decreases at - i,
    {
        push_char(&mut out, s[i]);
        assert(s@.subrange(0, i as int).push(s@[i as int]) =~= s@.subrange(0, i + 1));
        i = i + 1;
    }
    out.append(with);
    let ghost head = out@;
    let mut j: usize = end;
    assert(s@.subrange(end as int, end as int) =~= Seq::<char>::empty());
    while j < s.len()
        invariant
            end <= j <= s@.len(),
            out@ == head + s@.subrange(end as int, j as int),
        decreases s@.len() - j,
    {
        push_char(&mut out, s[j]);
        assert(s@.subrange(end as int, j as int).push(s@[j as int]) =~= s@.subrange(
            end as int,
            j + 1,
        ));
        j = j + 1;
    }
    out
}

fn put_text(s: &Vec<char>, span: Option<(usize, usize)>, with: &str) -> (r: String)
    requires
        span matches Some((at, end)) ==> at <= end <= s@.len(),
    ensures
        r@ == put(s@, span_of(span), with@),
{
    match span {
        Some((at, end)) => splice(s, at, end, with),
        None => {
            let r = crate::text::from_chars(s);
            r
        },
    }
}

/// The status document `source` as the client gets to see it.
pub fn mask_motd(source: &str, motd: &str, version_name: &str) -> (r: Option<String>)
    ensures
        match masked_status(source@, motd@, version_name@) {
            Some(text) => r matches Some(document) && document@ == text,
            None => r is None,
        },
{
    let chars: Vec<char> = to_chars(source);
    let (description, name) = match find_spans(&chars) {
        Some(spans) => spans,
        None => {
            return None;
        },
    };
    let description_to: String = chat_text(motd);
    let name_to: String = quote(version_name);
    let first_name: bool = match (description, name) {
        (Some((_, description_end)), Some((name_at, _))) => description_end <= name_at,
        _ => false,
    };
    let first_description: bool = match (description, name) {
        (Some((description_at, _)), Some((_, name_end))) => !first_name && name_end
            <= description_at,
        _ => false,
    };
    if first_name {
        let first: String = put_text(&chars, name, name_to.as_str());
        let again: Vec<char> = to_chars(first.as_str());
        Some(put_text(&again, description, description_to.as_str()))
    } else if first_description {
        let first: String = put_text(&chars, description, description_to.as_str());
        let again: Vec<char> = to_chars(first.as_str());
        Some(put_text(&again, name, name_to.as_str()))
    } else if description.is_some() {
        Some(put_text(&chars, description, description_to.as_str()))
    } else {
        Some(put_text(&chars, name, name_to.as_str()))
    }
}

/// Masking replaces the two values and nothing else: where the
/// description stands before the version name, the document that comes out
/// is what stood before the description, the new description, what stood
/// between the two, the new name, and what stood after the name, each part
/// to the last character as the server wrote it.
pub proof fn lemma_masked_parts(
    source: Seq<char>,
    description: Span,
    description_to: Seq<char>,
    name: Span,
    name_to: Seq<char>,
)
    requires
        0 <= description.at <= description.end <= name.at <= name.end <= source.len(),
    ensures
        masked(source, Some(description), description_to, Some(name), name_to)
            == source.subrange(0, description.at) + description_to + source.subrange(
            description.end,
            name.at,
        ) + name_to + source.subrange(name.end, source.len() as int),
{
    let want = source.subrange(0, description.at) + description_to + source.subrange(
        description.end,
        name.at,
    ) + name_to + source.subrange(name.end, source.len() as int);
    let first = put(source, Some(name), name_to);
    assert(first.subrange(0, description.at) =~= source.subrange(0, description.at));
    assert(first.subrange(description.end, first.len() as int) =~= source.subrange(
        description.end,
        name.at,
    ) + name_to + source.subrange(name.end, source.len() as int));
    assert(put(first, Some(description), description_to) =~= want);
}

/// The same where the version name stands before the description.
pub proof fn lemma_masked_parts_name_first(
    source: Seq<char>,
    description: Span,
    description_to: Seq<char>,
    name: Span,
    name_to: Seq<char>,
)
    requires
        0 <= name.at <= name.end <= description.at <= description.end <= source.len(),
        name.at < name.end,
    ensures
        masked(source, Some(description), description_to, Some(name), name_to)
            == source.subrange(0, name.at) + name_to + source.subrange(name.end, description.at)
            + description_to + source.subrange(description.end, source.len() as int),
{
    let want = source.subrange(0, name.at) + name_to + source.subrange(name.end, description.at)
        + description_to + source.subrange(description.end, source.len() as int);
    let first = put(source, Some(description), description_to);
    assert(first.subrange(0, name.at) =~= source.subrange(0, name.at));
    assert(first.subrange(name.end, first.len() as int) =~= source.subrange(
        name.end,
        description.at,
    ) + description_to + source.subrange(description.end, source.len() as int));
    assert(put(first, Some(name), name_to) =~= want);
}

/// A document without the two members stays as it is.
pub proof fn lemma_masked_absent(source: Seq<char>, description_to: Seq<char>, name_to: Seq<char>)
    ensures
        masked(source, None, description_to, None, name_to) == source,
{
}

} // verus!
