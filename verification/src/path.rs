//! The path resolver: from the argument to the path that is opened.
//!
//! An argument with the scheme `file://` is a URI: what follows the scheme is
//! percent-decoded. Only percent-escapes are decoded: `+`, `&` and `=` stand
//! for themselves, as they do in a path. Any other argument is the path
//! itself. A path that is a symbolic link is replaced by the link's target,
//! once: an absolute target as it stands, a relative one joined to the
//! link's directory and normalized.

use crate::text::{chars_of, find_last_char, starts_with};
use vstd::prelude::*;
use vstd::string::*;
use vstd::utf8::*;

verus! {

broadcast use {
    vstd::string::group_string_axioms,
    vstd::utf8::encode_utf8_decode_utf8,
    vstd::utf8::encode_utf8_valid_utf8,
};

/// The scheme of a file URI.
pub open spec fn scheme() -> Seq<char> {
    "file://"@
}

/// `arg` begins with the scheme of a file URI.
pub open spec fn has_file_scheme(arg: Seq<char>) -> bool {
    scheme().is_prefix_of(arg)
}

/// `b` is an ASCII hexadecimal digit.
pub open spec fn is_hex_digit(b: u8) -> bool {
    (0x30 <= b <= 0x39) || (0x41 <= b <= 0x46) || (0x61 <= b <= 0x66)
}

/// The number that the hexadecimal digit `b` stands for.
pub open spec fn hex_value(b: u8) -> int {
    if b <= 0x39 {
        b - 0x30
    } else if b <= 0x46 {
        b - 0x41 + 10
    } else {
        b - 0x61 + 10
    }
}

/// `bytes` begins with a percent-escape: `%` and two hexadecimal digits.
pub open spec fn starts_with_escape(bytes: Seq<u8>) -> bool {
    bytes.len() >= 3 && bytes[0] == 0x25 && is_hex_digit(bytes[1]) && is_hex_digit(bytes[2])
}

/// `bytes` with each percent-escape replaced by the byte it stands for.
pub open spec fn percent_decoded(bytes: Seq<u8>) -> Seq<u8>
    decreases bytes.len(),
{
    if bytes.len() == 0 {
        Seq::empty()
    } else if starts_with_escape(bytes) {
        seq![(16 * hex_value(bytes[1]) + hex_value(bytes[2])) as u8] + percent_decoded(
            bytes.skip(3),
        )
    } else {
        seq![bytes[0]] + percent_decoded(bytes.skip(1))
    }
}

/// The text that `bytes` stand for when each ill-formed part of them is
/// read as U+FFFD.
pub uninterp spec fn lossy_text(bytes: Seq<u8>) -> Seq<char>;

/// The bytes that the remainder of a file URI stands for.
pub open spec fn decoded_bytes(rest: Seq<char>) -> Seq<u8> {
    percent_decoded(encode_utf8(rest))
}

/// The path that the remainder of a file URI stands for.
pub open spec fn decoded_path(rest: Seq<char>) -> Seq<char> {
    lossy_text(decoded_bytes(rest))
}

/// The path that the argument names: the decoded remainder of a file URI, any
/// other argument as it stands.
pub open spec fn argument_path(arg: Seq<char>) -> Seq<char> {
    if has_file_scheme(arg) {
        decoded_path(arg.skip(7))
    } else {
        arg
    }
}

/// `path` begins at the root.
pub open spec fn is_absolute(path: Seq<char>) -> bool {
    path.len() > 0 && path[0] == '/'
}

/// The directory that holds `path`, with its closing `/`: `path` up to its
/// last `/`. Empty where `path` has no `/`.
pub open spec fn containing_dir(path: Seq<char>) -> Seq<char> {
    match path.index_of_last('/') {
        Some(i) => path.take(i + 1),
        None => Seq::empty(),
    }
}

/// The components of `path`: what stands between its `/`, in order. Read one
/// character at a time, a `/` begins a new component and any other character
/// extends the last one.
pub open spec fn components(path: Seq<char>) -> Seq<Seq<char>>
    decreases path.len(),
{
    if path.len() == 0 {
        seq![Seq::empty()]
    } else {
        let before = components(path.drop_last());
        if path.last() == '/' {
            before.push(Seq::empty())
        } else {
            before.drop_last().push(before.last().push(path.last()))
        }
    }
}

/// `component` is `.`, which stands for the directory itself.
pub open spec fn is_dot(component: Seq<char>) -> bool {
    component.len() == 1 && component[0] == '.'
}

/// `component` is `..`, which stands for the directory above.
pub open spec fn is_dot_dot(component: Seq<char>) -> bool {
    component.len() == 2 && component[0] == '.' && component[1] == '.'
}

/// What is kept after one more component: an empty component and `.` are
/// dropped; `..` cancels the component kept last, is dropped at the root,
/// and is kept where nothing but `..` came before it; any other component
/// is kept.
pub open spec fn with_component(kept: Seq<Seq<char>>, component: Seq<char>, rooted: bool) -> Seq<
    Seq<char>,
> {
    if component.len() == 0 || is_dot(component) {
        kept
    } else if is_dot_dot(component) {
        if kept.len() > 0 && !is_dot_dot(kept.last()) {
            kept.drop_last()
        } else if rooted {
            kept
        } else {
            kept.push(component)
        }
    } else {
        kept.push(component)
    }
}

/// What is kept of the components `all`, taken in order.
pub open spec fn kept_components(all: Seq<Seq<char>>, rooted: bool) -> Seq<Seq<char>>
    decreases all.len(),
{
    if all.len() == 0 {
        Seq::empty()
    } else {
        with_component(kept_components(all.drop_last(), rooted), all.last(), rooted)
    }
}

/// The components `parts` with a `/` between each two.
pub open spec fn joined(parts: Seq<Seq<char>>) -> Seq<char>
    decreases parts.len(),
{
    if parts.len() == 0 {
        Seq::empty()
    } else if parts.len() == 1 {
        parts[0]
    } else {
        joined(parts.drop_last()) + seq!['/'] + parts.last()
    }
}

/// `path` in its shortest form, read by its text alone: without empty
/// components and `.`, with each `..` cancelled against the component before
/// it, and with its leading `/` if it has one. A relative path of which
/// nothing is left is `.`.
pub open spec fn normalized(path: Seq<char>) -> Seq<char> {
    let rooted = is_absolute(path);
    let body = joined(kept_components(components(path), rooted));
    if rooted {
        seq!['/'] + body
    } else if body.len() == 0 {
        seq!['.']
    } else {
        body
    }
}

/// Where the link at `link` leads, given the target it holds: an absolute
/// target as it stands, a relative one from the directory that holds the
/// link, normalized.
pub open spec fn link_source(link: Seq<char>, target: Seq<char>) -> Seq<char> {
    if is_absolute(target) {
        target
    } else {
        normalized(containing_dir(link) + target)
    }
}

/// Every range lies in `text`.
pub open spec fn ranges_fit(text: Seq<char>, ranges: Seq<(usize, usize)>) -> bool {
    forall|k: int| 0 <= k < ranges.len() ==> (#[trigger] ranges[k]).0 <= ranges[k].1 <= text.len()
}

/// The parts of `text` that the ranges mark.
pub open spec fn marked(text: Seq<char>, ranges: Seq<(usize, usize)>) -> Seq<Seq<char>> {
    Seq::new(ranges.len(), |k: int| text.subrange(ranges[k].0 as int, ranges[k].1 as int))
}

/// Calls `percent_encoding::percent_decode` and collects the bytes that it
/// yields. Believed, not proved: every `%` that two hexadecimal digits follow
/// is replaced, with them, by the byte they denote; every other byte stays.
#[verifier::external_body]
fn percent_decode(bytes: &[u8]) -> (decoded: Vec<u8>)
    ensures
        decoded@ == percent_decoded(bytes@),
{
    percent_encoding::percent_decode(bytes).collect()
}

/// Calls `String::from_utf8_lossy`. Believed, not proved: the text depends
/// on the bytes alone, so that `lossy_text` can name it, and for valid UTF-8
/// it is the text that the bytes encode.
#[verifier::external_body]
pub(crate) fn utf8_lossy(bytes: &[u8]) -> (text: String)
    ensures
        text@ == lossy_text(bytes@),
        valid_utf8(bytes@) ==> text@ == decode_utf8(bytes@),
{
    String::from_utf8_lossy(bytes).into_owned()
}

/// The encoding of a character other than `%` holds no byte `%`.
proof fn lemma_scalar_has_no_percent(c: char)
    requires
        c != '%',
    ensures
        !encode_scalar(c as u32).contains(0x25u8),
{
    let v = c as u32;
    let bytes = encode_scalar(v);
    assert(forall|x: u8| #![auto] (0x80u8 | x) != 0x25) by (bit_vector);
    assert(forall|x: u8| #![auto] (0xC0u8 | x) != 0x25) by (bit_vector);
    assert(forall|x: u8| #![auto] (0xE0u8 | x) != 0x25) by (bit_vector);
    assert(forall|x: u8| #![auto] (0xF0u8 | x) != 0x25) by (bit_vector);
    assert(v <= 0x7F ==> (v & 0x7F) == v) by (bit_vector);
    assert forall|i: int| 0 <= i < bytes.len() implies bytes[i] != 0x25u8 by {}
}

/// Text without `%` is encoded without the byte `%`.
proof fn lemma_text_has_no_percent(text: Seq<char>)
    requires
        !text.contains('%'),
    ensures
        !encode_utf8(text).contains(0x25u8),
    decreases text.len(),
{
    if text.len() > 0 {
        let rest = text.drop_first();
        assert(text[0] != '%');
        assert forall|j: int| 0 <= j < rest.len() implies rest[j] != '%' by {
            assert(rest[j] == text[j + 1]);
        }
        lemma_scalar_has_no_percent(text[0]);
        lemma_text_has_no_percent(rest);
        let head = encode_scalar(text[0] as u32);
        let tail = encode_utf8(rest);
        assert forall|i: int| 0 <= i < (head + tail).len() implies (head + tail)[i] != 0x25u8 by {
            if i < head.len() {
                assert(head.contains(head[i]));
            } else {
                assert(tail.contains(tail[i - head.len()]));
            }
        }
    }
}

/// Bytes without `%` hold no escape: decoding leaves them as they are.
proof fn lemma_plain_bytes_stay(bytes: Seq<u8>)
    requires
        !bytes.contains(0x25u8),
    ensures
        percent_decoded(bytes) == bytes,
    decreases bytes.len(),
{
    if bytes.len() > 0 {
        let rest = bytes.skip(1);
        assert(bytes.contains(bytes[0]));
        assert forall|i: int| 0 <= i < rest.len() implies rest[i] != 0x25u8 by {
            assert(bytes.contains(bytes[i + 1]));
        }
        lemma_plain_bytes_stay(rest);
        assert(seq![bytes[0]] + rest =~= bytes);
    }
}

/// A remainder without `%` is the path: decoding changes nothing.
pub proof fn lemma_plain_remainder_is_path(rest: Seq<char>)
    requires
        !rest.contains('%'),
    ensures
        decoded_bytes(rest) == encode_utf8(rest),
        valid_utf8(decoded_bytes(rest)),
        decode_utf8(decoded_bytes(rest)) == rest,
{
    lemma_text_has_no_percent(rest);
    lemma_plain_bytes_stay(encode_utf8(rest));
}

/// An absolute target is the source as it stands, wherever the link is.
pub proof fn lemma_absolute_target_as_it_stands(link: Seq<char>, other: Seq<char>, target: Seq<char>)
    requires
        is_absolute(target),
    ensures
        link_source(link, target) == target,
        link_source(other, target) == link_source(link, target),
{
}

/// A relative target is joined to the directory that holds the link and
/// normalized: the source is the normalized form of the link's path up to
/// its last `/`, followed by the target.
pub proof fn lemma_relative_target_is_joined(link: Seq<char>, target: Seq<char>)
    requires
        !is_absolute(target),
    ensures
        link_source(link, target) == normalized(containing_dir(link) + target),
        containing_dir(link).is_prefix_of(link),
        containing_dir(link).len() > 0 ==> containing_dir(link).last() == '/',
        !link.skip(containing_dir(link).len() as int).contains('/'),
{
    link.index_of_last_ensures('/');
    let dir = containing_dir(link);
    let name = link.skip(dir.len() as int);
    assert forall|i: int| 0 <= i < name.len() implies name[i] != '/' by {
        assert(name[i] == link[dir.len() + i]);
    }
}

/// The directory that holds a path ends at the path's last `/`: where a `/`
/// stands at `i` and none after it, the directory is the path up to and
/// with that `/`; a path without `/` has the empty directory.
pub proof fn lemma_containing_dir(path: Seq<char>, i: int)
    requires
        -1 <= i < path.len(),
        i >= 0 ==> path[i] == '/',
        forall|j: int| i < j < path.len() ==> path[j] != '/',
    ensures
        containing_dir(path) == path.take(i + 1),
{
    path.index_of_last_ensures('/');
    if i >= 0 {
        assert(path.contains('/'));
        let k = path.index_of_last('/').unwrap();
        if i < k {
            assert(path[k] != '/');
        }
    } else {
        assert(path.take(0) =~= Seq::<char>::empty());
    }
}

/// Splitting loses nothing: the components of a path, joined, are the path.
pub proof fn lemma_joined_components(path: Seq<char>)
    ensures
        components(path).len() >= 1,
        joined(components(path)) == path,
    decreases path.len(),
{
    if path.len() > 0 {
        let before = components(path.drop_last());
        lemma_joined_components(path.drop_last());
        if path.last() == '/' {
            let all = before.push(Seq::empty());
            assert(all.drop_last() =~= before);
            assert(joined(all) =~= path.drop_last() + seq!['/']);
            assert(path.drop_last() + seq!['/'] =~= path);
        } else {
            let all = before.drop_last().push(before.last().push(path.last()));
            if before.len() == 1 {
                assert(joined(all) =~= before[0].push(path.last()));
            } else {
                assert(all.drop_last() =~= before.drop_last());
                assert(joined(all) =~= joined(before).push(path.last()));
            }
            assert(path.drop_last().push(path.last()) =~= path);
        }
    }
}

/// What is kept is clean: no component is empty or `.`, below the root none
/// is `..`, and in a relative path `..` stands only before every other
/// component.
pub proof fn lemma_kept_components_are_clean(all: Seq<Seq<char>>, rooted: bool)
    ensures
        forall|k: int|
            0 <= k < kept_components(all, rooted).len() ==> {
                let c = #[trigger] kept_components(all, rooted)[k];
                &&& c.len() > 0
                &&& !is_dot(c)
                &&& rooted ==> !is_dot_dot(c)
                &&& is_dot_dot(c) && k > 0 ==> is_dot_dot(kept_components(all, rooted)[k - 1])
            },
    decreases all.len(),
{
    if all.len() > 0 {
        lemma_kept_components_are_clean(all.drop_last(), rooted);
        let before = kept_components(all.drop_last(), rooted);
        let after = kept_components(all, rooted);
        assert forall|k: int| 0 <= k < after.len() implies {
            let c = #[trigger] after[k];
            &&& c.len() > 0
            &&& !is_dot(c)
            &&& rooted ==> !is_dot_dot(c)
            &&& is_dot_dot(c) && k > 0 ==> is_dot_dot(after[k - 1])
        } by {
            if k < before.len() {
                assert(after[k] == before[k]);
                if k > 0 {
                    assert(after[k - 1] == before[k - 1]);
                }
            } else {
                assert(after == before.push(all.last()));
            }
        }
    }
}

/// No component holds a `/`.
pub proof fn lemma_components_have_no_slash(path: Seq<char>)
    ensures
        forall|k: int|
            0 <= k < components(path).len() ==> !(#[trigger] components(path)[k]).contains('/'),
    decreases path.len(),
{
    if path.len() > 0 {
        let before = components(path.drop_last());
        lemma_components_have_no_slash(path.drop_last());
        lemma_joined_components(path.drop_last());
        assert forall|k: int| 0 <= k < components(path).len() implies !(#[trigger] components(
            path,
        )[k]).contains('/') by {
            let c = components(path)[k];
            if k < before.len() - 1 {
                assert(c == before[k]);
            } else if path.last() == '/' {
                if k == before.len() - 1 {
                    assert(c == before[k]);
                }
            } else {
                let old = before.last();
                assert(c == old.push(path.last()));
                if c.contains('/') {
                    let i = choose|i: int| 0 <= i < c.len() && c[i] == '/';
                    assert(i < old.len());
                    assert(old[i] == '/');
                    assert(old.contains('/'));
                }
            }
        }
    }
}

/// Joining is undone by splitting: components without `/`, at least one of
/// them, are the components of what they are joined to.
pub proof fn lemma_components_of_joined(parts: Seq<Seq<char>>)
    requires
        parts.len() >= 1,
        forall|k: int| 0 <= k < parts.len() ==> !(#[trigger] parts[k]).contains('/'),
    ensures
        components(joined(parts)) == parts,
    decreases joined(parts).len(),
{
    let path = joined(parts);
    let last = parts.last();
    let front = parts.drop_last();
    if parts.len() == 1 {
        assert(path == last);
    } else {
        assert(path =~= joined(front) + seq!['/'] + last);
    }
    if last.len() == 0 {
        if parts.len() == 1 {
            assert(parts =~= seq![Seq::<char>::empty()]) by {
                assert(parts[0] =~= Seq::<char>::empty());
            }
        } else {
            assert(path.drop_last() =~= joined(front));
            assert(path.last() == '/');
            lemma_components_of_joined(front);
            assert(last =~= Seq::<char>::empty());
            assert(front.push(Seq::<char>::empty()) =~= parts);
        }
    } else {
        let shorter = front.push(last.drop_last());
        assert(shorter.drop_last() =~= front);
        assert(shorter.last() == last.drop_last());
        assert(last.contains(last.last()));
        assert(path.last() == last.last());
        if parts.len() == 1 {
            assert(joined(shorter) == last.drop_last());
            assert(path.drop_last() =~= joined(shorter));
        } else {
            assert(joined(shorter) =~= joined(front) + seq!['/'] + last.drop_last());
            assert(path.drop_last() =~= joined(shorter));
        }
        assert forall|k: int| 0 <= k < shorter.len() implies !(#[trigger] shorter[k]).contains(
            '/',
        ) by {
            if k < front.len() {
                assert(shorter[k] == parts[k]);
            } else {
                let c = shorter[k];
                if c.contains('/') {
                    let i = choose|i: int| 0 <= i < c.len() && c[i] == '/';
                    assert(last[i] == '/');
                    assert(last.contains('/'));
                }
            }
        }
        lemma_components_of_joined(shorter);
        assert(last.drop_last().push(last.last()) =~= last);
        assert(shorter.drop_last().push(shorter.last().push(path.last())) =~= parts);
    }
}

/// Components are clean where none is empty or `.`, below the root none is
/// `..`, and in a relative path `..` stands only before every other one.
pub open spec fn are_clean(parts: Seq<Seq<char>>, rooted: bool) -> bool {
    forall|k: int|
        0 <= k < parts.len() ==> {
            let c = #[trigger] parts[k];
            &&& c.len() > 0
            &&& !is_dot(c)
            &&& rooted ==> !is_dot_dot(c)
            &&& is_dot_dot(c) && k > 0 ==> is_dot_dot(parts[k - 1])
        }
}

/// Clean components are all kept.
pub proof fn lemma_clean_components_are_kept(parts: Seq<Seq<char>>, rooted: bool)
    requires
        are_clean(parts, rooted),
    ensures
        kept_components(parts, rooted) == parts,
    decreases parts.len(),
{
    if parts.len() > 0 {
        let front = parts.drop_last();
        assert forall|k: int| 0 <= k < front.len() implies {
            let c = #[trigger] front[k];
            &&& c.len() > 0
            &&& !is_dot(c)
            &&& rooted ==> !is_dot_dot(c)
            &&& is_dot_dot(c) && k > 0 ==> is_dot_dot(front[k - 1])
        } by {
            assert(front[k] == parts[k]);
            if k > 0 {
                assert(front[k - 1] == parts[k - 1]);
            }
        }
        lemma_clean_components_are_kept(front, rooted);
        let last = parts[parts.len() - 1];
        if front.len() > 0 {
            assert(front.last() == parts[parts.len() - 2]);
        }
        assert(front.push(last) =~= parts);
    } else {
        assert(parts =~= Seq::<Seq<char>>::empty());
    }
}

/// An empty component before the others changes nothing of what is kept.
proof fn lemma_leading_empty_component(parts: Seq<Seq<char>>, rooted: bool)
    ensures
        kept_components(seq![Seq::<char>::empty()] + parts, rooted) == kept_components(
            parts,
            rooted,
        ),
    decreases parts.len(),
{
    let head = seq![Seq::<char>::empty()];
    if parts.len() == 0 {
        assert(head + parts =~= head);
        assert(head.drop_last() =~= Seq::<Seq<char>>::empty());
        assert(kept_components(head.drop_last(), rooted) =~= Seq::<Seq<char>>::empty());
    } else {
        lemma_leading_empty_component(parts.drop_last(), rooted);
        assert((head + parts).drop_last() =~= head + parts.drop_last());
        assert((head + parts).last() == parts.last());
    }
}

/// Every component that is kept is one of the components.
proof fn lemma_kept_components_are_components(all: Seq<Seq<char>>, rooted: bool)
    ensures
        forall|k: int|
            0 <= k < kept_components(all, rooted).len() ==> all.contains(
                #[trigger] kept_components(all, rooted)[k],
            ),
    decreases all.len(),
{
    if all.len() > 0 {
        let front = all.drop_last();
        lemma_kept_components_are_components(front, rooted);
        let before = kept_components(front, rooted);
        let after = kept_components(all, rooted);
        assert forall|k: int| 0 <= k < after.len() implies all.contains(#[trigger] after[k]) by {
            if k < before.len() {
                assert(after[k] == before[k]);
                assert(front.contains(before[k]));
                let i = choose|i: int| 0 <= i < front.len() && front[i] == before[k];
                assert(all[i] == before[k]);
            } else {
                assert(after[k] == all[all.len() - 1]);
            }
        }
    }
}

/// A `/` and the joined components are the components joined after an
/// empty one.
proof fn lemma_joined_after_empty(parts: Seq<Seq<char>>)
    requires
        parts.len() >= 1,
    ensures
        joined(seq![Seq::<char>::empty()] + parts) == seq!['/'] + joined(parts),
    decreases parts.len(),
{
    let head = seq![Seq::<char>::empty()];
    let all = head + parts;
    assert(all.drop_last() =~= head + parts.drop_last());
    assert(all.last() == parts.last());
    if parts.len() == 1 {
        assert(head + parts.drop_last() =~= head);
        assert(joined(head) =~= Seq::<char>::empty());
        assert(joined(all) =~= seq!['/'] + parts[0]);
    } else {
        lemma_joined_after_empty(parts.drop_last());
        assert(joined(all) =~= seq!['/'] + joined(parts));
    }
}

/// What clean components are joined to begins with the first of them.
proof fn lemma_joined_begins_with_first(parts: Seq<Seq<char>>)
    requires
        parts.len() >= 1,
    ensures
        parts[0].is_prefix_of(joined(parts)),
    decreases parts.len(),
{
    if parts.len() > 1 {
        lemma_joined_begins_with_first(parts.drop_last());
        assert(parts.drop_last()[0] == parts[0]);
    }
}

/// The normal form is a normal form: normalizing it again changes nothing.
pub proof fn lemma_normalized_twice(path: Seq<char>)
    ensures
        normalized(normalized(path)) == normalized(path),
{
    let rooted = is_absolute(path);
    let all = components(path);
    let kept = kept_components(all, rooted);
    let body = joined(kept);
    let once = normalized(path);
    lemma_kept_components_are_clean(all, rooted);
    lemma_kept_components_are_components(all, rooted);
    lemma_components_have_no_slash(path);
    assert(are_clean(kept, rooted));
    assert forall|k: int| 0 <= k < kept.len() implies !(#[trigger] kept[k]).contains('/') by {
        let i = choose|i: int| 0 <= i < all.len() && all[i] == kept[k];
        assert(!all[i].contains('/'));
    }
    lemma_clean_components_are_kept(kept, rooted);
    if kept.len() == 0 {
        reveal_with_fuel(components, 3);
        reveal_with_fuel(kept_components, 3);
        reveal_with_fuel(joined, 3);
        assert(body =~= Seq::<char>::empty());
        if rooted {
            assert(once =~= seq!['/']);
            assert(normalized(seq!['/']) =~= seq!['/']);
        } else {
            assert(once =~= seq!['.']);
            assert(normalized(seq!['.']) =~= seq!['.']);
        }
    } else {
        lemma_joined_begins_with_first(kept);
        assert(kept[0].len() > 0);
        assert(body[0] == kept[0][0]);
        assert(kept[0].contains(kept[0][0]));
        assert(body[0] != '/');
        if rooted {
            let head = seq![Seq::<char>::empty()];
            lemma_joined_after_empty(kept);
            assert(once == joined(head + kept));
            assert forall|k: int| 0 <= k < (head + kept).len() implies !(#[trigger] (head
                + kept)[k]).contains('/') by {
                if k > 0 {
                    assert((head + kept)[k] == kept[k - 1]);
                }
            }
            lemma_components_of_joined(head + kept);
            lemma_leading_empty_component(kept, true);
            assert(is_absolute(once));
        } else {
            assert(once == body);
            lemma_components_of_joined(kept);
            assert(!is_absolute(once));
        }
    }
}

/// Adds the component of `text` between `from` and `to` to what is kept.
fn keep_component(
    text: &Vec<char>,
    kept: &mut Vec<(usize, usize)>,
    from: usize,
    to: usize,
    rooted: bool,
)
    requires
        from <= to <= text.len(),
        ranges_fit(text@, old(kept)@),
    ensures
        ranges_fit(text@, final(kept)@),
        marked(text@, final(kept)@) == with_component(
            marked(text@, old(kept)@),
            text@.subrange(from as int, to as int),
            rooted,
        ),
{
    let ghost component = text@.subrange(from as int, to as int);
    let ghost before = marked(text@, kept@);
    let len = to - from;
    if len == 0 {
        return ;
    }
    if len == 1 && text[from] == '.' {
        return ;
    }
    if len == 2 && text[from] == '.' && text[from + 1] == '.' {
        let m = kept.len();
        if m > 0 {
            let (a, b) = kept[m - 1];
            assert(before.last() == text@.subrange(a as int, b as int));
            let above = b - a == 2 && text[a] == '.' && text[a + 1] == '.';
            if !above {
                kept.pop();
                assert(marked(text@, kept@) =~= before.drop_last());
                return ;
            }
        }
        if rooted {
            return ;
        }
    }
    kept.push((from, to));
    assert(marked(text@, kept@) =~= before.push(component));
}

/// The ranges of the components that are kept of `text`.
fn kept_ranges(text: &Vec<char>, rooted: bool) -> (kept: Vec<(usize, usize)>)
    ensures
        ranges_fit(text@, kept@),
        marked(text@, kept@) == kept_components(components(text@), rooted),
{
    let n = text.len();
    let mut kept: Vec<(usize, usize)> = Vec::new();
    let mut start: usize = 0;
    let mut i: usize = 0;
    let ghost mut done: Seq<Seq<char>> = Seq::empty();
    assert(text@.take(0) =~= Seq::<char>::empty());
    assert(components(text@.take(0)) =~= done.push(text@.subrange(0, 0)));
    assert(marked(text@, kept@) =~= kept_components(done, rooted));
    while i < n
        invariant
            start <= i <= n,
            n == text.len(),
            components(text@.take(i as int)) == done.push(text@.subrange(start as int, i as int)),
            ranges_fit(text@, kept@),
            marked(text@, kept@) == kept_components(done, rooted),
        decreases n - i,
    {
        let ghost current = text@.subrange(start as int, i as int);
        let ghost so_far = text@.take(i as int);
        let ghost next = text@.take(i + 1);
        assert(next.drop_last() =~= so_far);
        assert(next.last() == text@[i as int]);
        if text[i] == '/' {
            keep_component(text, &mut kept, start, i, rooted);
            proof {
                let more = done.push(current);
                assert(more.drop_last() =~= done);
                assert(more.last() == current);
                assert(text@.subrange(i + 1, i + 1) =~= Seq::<char>::empty());
                assert(components(next) == more.push(text@.subrange(i + 1, i + 1)));
                done = more;
            }
            start = i + 1;
        } else {
            proof {
                let before = done.push(current);
                assert(before.drop_last() =~= done);
                assert(current.push(text@[i as int]) =~= text@.subrange(start as int, i + 1));
                assert(components(next) =~= done.push(text@.subrange(start as int, i + 1)));
            }
        }
        i += 1;
    }
    keep_component(text, &mut kept, start, n, rooted);
    proof {
        let all = done.push(text@.subrange(start as int, n as int));
        assert(text@.take(n as int) =~= text@);
        assert(all.drop_last() =~= done);
    }
    kept
}

/// The shortest form of `path`, read by its text alone.
pub fn normalize(path: &str) -> (clean: String)
    ensures
        clean@ == normalized(path@),
{
    let text = chars_of(path);
    let rooted = text.len() > 0 && text[0] == '/';
    let kept = kept_ranges(&text, rooted);
    let ghost parts = marked(text@, kept@);
    let mut clean = if rooted {
        "/".to_owned()
    } else {
        "".to_owned()
    };
    proof {
        reveal_strlit("/");
        reveal_strlit("");
        reveal_strlit(".");
    }
    let ghost prefix = clean@;
    assert(parts.take(0) =~= Seq::<Seq<char>>::empty());
    let mut k: usize = 0;
    while k < kept.len()
        invariant
            k <= kept.len(),
            path@ == text@,
            ranges_fit(text@, kept@),
            parts == marked(text@, kept@),
            clean@ == prefix + joined(parts.take(k as int)),
        decreases kept.len() - k,
    {
        if k > 0 {
            clean.append("/");
        }
        let (a, b) = kept[k];
        clean.append(path.substring_char(a, b));
        proof {
            reveal_strlit("/");
            let more = parts.take(k + 1);
            assert(more.drop_last() =~= parts.take(k as int));
            assert(more.last() == parts[k as int]);
            assert(clean@ =~= prefix + joined(more));
        }
        k += 1;
    }
    assert(parts.take(kept.len() as int) =~= parts);
    if !rooted && clean.as_str().is_empty() {
        return ".".to_owned();
    }
    assert(rooted ==> clean@ =~= seq!['/'] + joined(parts));
    assert(!rooted ==> clean@ =~= joined(parts));
    clean
}

/// Whether `arg` is a file URI.
pub fn is_file_uri(arg: &str) -> (b: bool)
    ensures
        b == has_file_scheme(arg@),
{
    starts_with(arg, "file://")
}

/// The path that the file URI names: what follows the scheme, percent-decoded.
pub fn decode_file_uri(file_uri: &str) -> (path: String)
    requires
        has_file_scheme(file_uri@),
    ensures
        path@ == decoded_path(file_uri@.skip(7)),
        valid_utf8(decoded_bytes(file_uri@.skip(7))) ==> path@ == decode_utf8(
            decoded_bytes(file_uri@.skip(7)),
        ),
        !file_uri@.skip(7).contains('%') ==> path@ == file_uri@.skip(7),
{
    proof {
        reveal_strlit("file://");
    }
    let n = file_uri.unicode_len();
    let rest = file_uri.substring_char(7, n);
    assert(rest@ =~= file_uri@.skip(7));
    let decoded = percent_decode(rest.as_bytes());
    proof {
        if !rest@.contains('%') {
            lemma_plain_remainder_is_path(rest@);
        }
    }
    utf8_lossy(decoded.as_slice())
}

/// The path that the argument names: the decoded remainder of a file URI,
/// any other argument unchanged.
pub fn resolve_argument(arg: &str) -> (path: String)
    ensures
        path@ == argument_path(arg@),
        !has_file_scheme(arg@) ==> path@ == arg@,
        has_file_scheme(arg@) && !arg@.skip(7).contains('%') ==> path@ == arg@.skip(7),
{
    if is_file_uri(arg) {
        decode_file_uri(arg)
    } else {
        arg.to_owned()
    }
}

/// Whether `path` begins at the root.
pub fn is_absolute_path(path: &str) -> (b: bool)
    ensures
        b == is_absolute(path@),
{
    let b = starts_with(path, "/");
    proof {
        reveal_strlit("/");
        if is_absolute(path@) {
            assert("/"@ =~= path@.subrange(0, 1));
        }
        if b {
            assert(path@.subrange(0, 1)[0] == '/');
        }
    }
    b
}

/// Follows one symbolic link: the path to use in place of `file_path`, given
/// the target that the link holds, or `None` where it could not be read. An
/// absolute target is the path as it stands; a relative one is joined to the
/// directory of `file_path` and normalized.
pub fn get_soft_link_source(file_path: &str, target: Option<&str>) -> (source: String)
    ensures
        match target {
            Some(t) => source@ == link_source(file_path@, t@),
            None => source@ == file_path@,
        },
        match target {
            Some(t) => if is_absolute(t@) {
                source@ == t@
            } else {
                source@ == normalized(containing_dir(file_path@) + t@)
            },
            None => true,
        },
{
    match target {
        None => file_path.to_owned(),
        Some(t) => {
            if is_absolute_path(t) {
                t.to_owned()
            } else {
                let text = chars_of(file_path);
                let dir = match find_last_char(&text, '/') {
                    Some(i) => file_path.substring_char(0, i + 1),
                    None => "",
                };
                proof {
                    reveal_strlit("");
                    assert(dir@ =~= containing_dir(file_path@));
                }
                let mut whole = dir.to_owned();
                whole.append(t);
                normalize(whole.as_str())
            }
        },
    }
}

} // verus!
