//! Paths on the remote host: resolving what a remote `code` command names
//! against the directory it was run in.

use vstd::prelude::*;
use crate::number::{self, is_ascii_digit};
use crate::text::{self, chars_of, find_first, find_last, join_with, same, split_at, starts_with};

verus! {

/// What is left of a path's pieces when empty pieces and `.` are dropped and
/// each `..` takes the piece before it away.
pub open spec fn climb(pieces: Seq<Seq<char>>) -> Seq<Seq<char>>
    decreases pieces.len(),
{
    if pieces.len() == 0 {
        Seq::empty()
    } else {
        let kept = climb(pieces.drop_last());
        let piece = pieces.last();
        if piece.len() == 0 || piece == "."@ {
            kept
        } else if piece != ".."@ {
            kept.push(piece)
        } else if kept.len() > 0 {
            kept.drop_last()
        } else {
            kept
        }
    }
}

/// The normal form of a path: absolute, without `.`, `..`, empty pieces and
/// a trailing slash.
pub open spec fn normal_path(path: Seq<char>) -> Seq<char> {
    seq!['/'] + text::join(climb(text::split(path, '/')), '/')
}

pub open spec fn is_scheme_char(c: char) -> bool {
    'a' <= c <= 'z' || 'A' <= c <= 'Z' || '0' <= c <= '9' || c == '+' || c == '-' || c == '.'
}

/// Whether a text begins like a URI: scheme characters, at least one, and a
/// colon.
pub open spec fn uri_like(s: Seq<char>) -> bool {
    let colon = text::first_of(s, ':');
    0 < colon < s.len() && forall|i: int| 0 <= i < colon ==> is_scheme_char(#[trigger] s[i])
}

/// The absolute path, or URI, that `value` names in the directory `cwd`.
pub open spec fn resolved_path(cwd: Seq<char>, value: Seq<char>) -> Seq<char> {
    if value == "."@ {
        cwd
    } else if text::begins_with(value, '/') || uri_like(value) {
        value
    } else {
        normal_path(cwd.push('/') + value)
    }
}

/// A text parted at its last colon, where only digits follow that colon.
pub open spec fn numeric_suffix(s: Seq<char>) -> Option<(Seq<char>, Seq<char>)> {
    let colon = text::last_of(s, ':');
    if colon >= 0 && number::all_digits(s.skip(colon + 1)) {
        Some((s.take(colon), s.skip(colon + 1)))
    } else {
        None
    }
}

/// A path parted from the `:line` or `:line:column` at its end.
pub open spec fn goto_suffix(s: Seq<char>) -> Option<(Seq<char>, Seq<char>)> {
    match numeric_suffix(s) {
        None => None,
        Some((head, last)) => if last.len() == 0 {
            None
        } else {
            match numeric_suffix(head) {
                Some((path, line)) if line.len() > 0 => Some((path, s.skip(path.len() as int))),
                _ => Some((head, s.skip(head.len() as int))),
            }
        },
    }
}

/// What a `file:line:column` argument names in the directory `cwd`.
pub open spec fn goto_target(cwd: Seq<char>, value: Seq<char>) -> Seq<char> {
    match goto_suffix(value) {
        Some((path, suffix)) => resolved_path(cwd, path) + suffix,
        None => resolved_path(cwd, value),
    }
}

/// Brings a path to its normal form.
pub fn normalize_remote_path(path: &str) -> (r: String)
    ensures
        r@ == normal_path(path@),
{
    let pieces = split_at(path, '/');
    let ghost all = text::texts(pieces@);
    let mut kept: Vec<String> = Vec::new();
    let mut i: usize = 0;
    while i < pieces.len()
        invariant
            i <= pieces.len(),
            all == text::texts(pieces@),
            text::texts(kept@) == climb(all.take(i as int)),
        decreases pieces.len() - i,
    {
        let ghost upto = all.take(i + 1);
        let ghost before = kept@;
        assert(upto.drop_last() == all.take(i as int));
        assert(upto.last() == pieces@[i as int]@);
        let piece = pieces[i].as_str();
        if piece.is_empty() || same(piece, ".") {
        } else if same(piece, "..") {
            let _ = kept.pop();
            proof {
                if before.len() > 0 {
                    assert(text::texts(kept@) == text::texts(before).drop_last());
                }
            }
        } else {
            kept.push(pieces[i].clone());
            assert(text::texts(kept@) == text::texts(before).push(piece@));
        }
        i += 1;
    }
    assert(all.take(i as int) == all);
    let mut r = "/".to_owned();
    r.append(join_with(&kept, '/').as_str());
    proof {
        reveal_strlit("/");
        assert("/"@ == seq!['/']);
    }
    r
}

/// Whether `value` begins like a URI.
pub fn looks_like_uri(value: &str) -> (r: bool)
    ensures
        r == uri_like(value@),
{
    let cs = chars_of(value);
    let colon: usize = find_first(&cs, ':');
    proof {
        text::lemma_first_of(value@, ':');
    }
    if colon == cs.len() || colon == 0 {
        return false;
    }
    let mut i: usize = 0;
    while i < colon
        invariant
            i <= colon < cs.len(),
            cs@ == value@,
            colon == text::first_of(value@, ':'),
            forall|j: int| 0 <= j < i ==> is_scheme_char(#[trigger] value@[j]),
        decreases colon - i,
    {
        let c: char = cs[i];
        let fits = ('a' <= c && c <= 'z') || ('A' <= c && c <= 'Z') || is_ascii_digit(c) || c == '+'
            || c == '-' || c == '.';
        if !fits {
            assert(!is_scheme_char(value@[i as int]));
            return false;
        }
        i += 1;
    }
    true
}

/// Resolves `value` against the directory `cwd`.
pub fn resolve_remote_path(cwd: &str, value: &str) -> (r: String)
    ensures
        r@ == resolved_path(cwd@, value@),
{
    if same(value, ".") {
        return cwd.to_owned();
    }
    if starts_with(value, '/') || looks_like_uri(value) {
        return value.to_owned();
    }
    let mut whole = cwd.to_owned();
    whole.push('/');
    whole.append(value);
    normalize_remote_path(whole.as_str())
}

/// Parts `value` at its last colon, where only digits follow that colon.
pub fn split_numeric_suffix(value: &str) -> (r: Option<(&str, &str)>)
    ensures
        match r {
            Some((left, right)) => numeric_suffix(value@) == Some((left@, right@)),
            None => numeric_suffix(value@) is None,
        },
{
    let cs = chars_of(value);
    let colon: usize = match find_last(&cs, ':') {
        Some(k) => k,
        None => {
            return None;
        },
    };
    proof {
        text::lemma_last_of(value@, ':');
    }
    let mut i: usize = colon + 1;
    while i < cs.len()
        invariant
            0 <= colon < i <= cs.len(),
            cs@ == value@,
            colon == text::last_of(value@, ':'),
            forall|j: int| colon < j < i ==> number::is_digit(#[trigger] value@[j]),
        decreases cs.len() - i,
    {
        if !is_ascii_digit(cs[i]) {
            proof {
                let tail = value@.skip(colon + 1);
                assert(tail[i - colon - 1] == value@[i as int]);
                assert(!number::all_digits(tail));
            }
            return None;
        }
        i += 1;
    }
    proof {
        let tail = value@.skip(colon + 1);
        assert forall|j: int| 0 <= j < tail.len() implies number::is_digit(#[trigger] tail[j]) by {
            assert(tail[j] == value@[colon + 1 + j]);
        }
        assert(value@.subrange(0, colon as int) == value@.take(colon as int));
        assert(value@.subrange(colon + 1, value@.len() as int) == value@.skip(colon + 1));
    }
    Some((value.substring_char(0, colon), value.substring_char(colon + 1, cs.len())))
}

/// Parts a path from the `:line` or `:line:column` at its end.
pub fn split_goto_suffix(value: &str) -> (r: Option<(&str, &str)>)
    ensures
        match r {
            Some((path, suffix)) => goto_suffix(value@) == Some((path@, suffix@)),
            None => goto_suffix(value@) is None,
        },
{
    let length: usize = value.unicode_len();
    proof {
        text::lemma_last_of(value@, ':');
    }
    match split_numeric_suffix(value) {
        None => None,
        Some((head, last)) => {
            if last.is_empty() {
                return None;
            }
            proof {
                text::lemma_last_of(head@, ':');
            }
            if let Some((path, line)) = split_numeric_suffix(head) {
                if !line.is_empty() {
                    let cut: usize = path.unicode_len();
                    assert(value@.subrange(cut as int, length as int) == value@.skip(cut as int));
                    return Some((path, value.substring_char(cut, length)));
                }
            }
            let cut: usize = head.unicode_len();
            assert(value@.subrange(cut as int, length as int) == value@.skip(cut as int));
            Some((head, value.substring_char(cut, length)))
        },
    }
}

/// Resolves a `file:line:column` argument against the directory `cwd`.
pub fn resolve_goto_target(cwd: &str, value: &str) -> (r: String)
    ensures
        r@ == goto_target(cwd@, value@),
{
    match split_goto_suffix(value) {
        Some((path, suffix)) => {
            let mut r = resolve_remote_path(cwd, path);
            r.append(suffix);
            r
        },
        None => resolve_remote_path(cwd, value),
    }
}

/// Whether a piece of a path names something below the piece before it.
pub open spec fn is_proper(piece: Seq<char>) -> bool {
    piece.len() > 0 && piece != "."@ && piece != ".."@ && text::is_free_of(piece, '/')
}

pub open spec fn all_proper(pieces: Seq<Seq<char>>) -> bool {
    forall|i: int| 0 <= i < pieces.len() ==> is_proper(#[trigger] pieces[i])
}

proof fn lemma_climb_is_proper(pieces: Seq<Seq<char>>)
    requires
        text::all_free_of(pieces, '/'),
    ensures
        all_proper(climb(pieces)),
    decreases pieces.len(),
{
    if pieces.len() > 0 {
        let init = pieces.drop_last();
        assert forall|i: int| 0 <= i < init.len() implies text::is_free_of(
            #[trigger] init[i],
            '/',
        ) by {
            assert(init[i] == pieces[i]);
        }
        lemma_climb_is_proper(init);
        assert(text::is_free_of(pieces[pieces.len() - 1], '/'));
        let kept = climb(init);
        assert forall|i: int| 0 <= i < climb(pieces).len() implies is_proper(
            #[trigger] climb(pieces)[i],
        ) by {
            if i < kept.len() {
                assert(climb(pieces)[i] == kept[i]);
            }
        }
    }
}

/// What is left of pieces depends on those at the beginning only through what
/// is left of them.
proof fn lemma_climb_concat(a: Seq<Seq<char>>, b: Seq<Seq<char>>, more: Seq<Seq<char>>)
    requires
        climb(a) == climb(b),
    ensures
        climb(a + more) == climb(b + more),
    decreases more.len(),
{
    if more.len() == 0 {
        assert(a + more == a);
        assert(b + more == b);
    } else {
        lemma_climb_concat(a, b, more.drop_last());
        assert((a + more).drop_last() == a + more.drop_last());
        assert((b + more).drop_last() == b + more.drop_last());
    }
}

proof fn lemma_climb_proper(pieces: Seq<Seq<char>>)
    requires
        all_proper(pieces),
    ensures
        climb(pieces) == pieces,
    decreases pieces.len(),
{
    if pieces.len() > 0 {
        let init = pieces.drop_last();
        assert forall|i: int| 0 <= i < init.len() implies is_proper(#[trigger] init[i]) by {
            assert(init[i] == pieces[i]);
        }
        lemma_climb_proper(init);
        assert(is_proper(pieces[pieces.len() - 1]));
        assert(init.push(pieces.last()) == pieces);
    }
}

/// A path in normal form is a slash and proper pieces with slashes between
/// them: it is absolute, and holds no `.`, no `..` and no empty piece.
pub proof fn law_normal_path_form(path: Seq<char>)
    ensures
        all_proper(climb(text::split(path, '/'))),
        text::begins_with(normal_path(path), '/'),
        normal_path(path) == seq!['/'] + text::join(climb(text::split(path, '/')), '/'),
{
    text::lemma_split_pieces(path, '/');
    lemma_climb_is_proper(text::split(path, '/'));
}

/// Bringing a path in normal form to normal form changes nothing.
pub proof fn law_normal_path_idempotent(path: Seq<char>)
    ensures
        normal_path(normal_path(path)) == normal_path(path),
{
    let kept = climb(text::split(path, '/'));
    let normal = normal_path(path);
    let empty = Seq::<char>::empty();
    law_normal_path_form(path);
    if kept.len() == 0 {
        assert(normal == empty.push('/') + empty);
        text::lemma_split_next(empty, empty, '/');
        assert(text::split(empty, '/') == seq![empty]);
        let pieces = text::split(normal, '/');
        assert(pieces == seq![empty, empty]);
        assert(pieces.drop_last() == seq![empty]);
        assert(seq![empty].drop_last() == Seq::<Seq<char>>::empty());
        assert(climb(Seq::<Seq<char>>::empty()) == Seq::<Seq<char>>::empty());
        assert(climb(seq![empty]) == Seq::<Seq<char>>::empty());
        assert(climb(pieces) == kept);
    } else {
        let pieces = seq![empty] + kept;
        text::lemma_join_first(empty, kept, '/');
        assert(normal == text::join(pieces, '/')) by {
            assert(empty.push('/') == seq!['/']);
        }
        assert forall|i: int| 0 <= i < pieces.len() implies text::is_free_of(
            #[trigger] pieces[i],
            '/',
        ) by {
            if i > 0 {
                assert(is_proper(kept[i - 1]));
            }
        }
        text::law_join_split(pieces, '/');
        assert(seq![empty].drop_last() == Seq::<Seq<char>>::empty());
        assert(climb(seq![empty]) == climb(Seq::<Seq<char>>::empty()));
        lemma_climb_concat(seq![empty], Seq::<Seq<char>>::empty(), kept);
        assert(Seq::<Seq<char>>::empty() + kept == kept);
        lemma_climb_proper(kept);
    }
}

/// Going into a directory and back out of it with `..` leads nowhere else.
pub proof fn law_parent_undoes_child(path: Seq<char>, name: Seq<char>)
    requires
        is_proper(name),
    ensures
        normal_path(path.push('/') + name + "/.."@) == normal_path(path),
{
    let child = path.push('/') + name;
    reveal_strlit("/..");
    reveal_strlit("..");
    text::lemma_split_next(path, name, '/');
    text::lemma_split_next(child, ".."@, '/');
    assert(child + "/.."@ == child.push('/') + ".."@);
    let start = text::split(path, '/');
    let pieces = start.push(name).push(".."@);
    assert(pieces.drop_last() == start.push(name));
    assert(start.push(name).drop_last() == start);
    assert(climb(start.push(name)) == climb(start).push(name));
    assert(climb(start).push(name).drop_last() == climb(start));
    assert(".."@ != "."@) by {
        reveal_strlit(".");
    }
}

/// In an absolute directory, everything resolves to an absolute path, or is
/// passed on because it begins like a URI.
pub proof fn law_resolved_path_is_absolute(cwd: Seq<char>, value: Seq<char>)
    requires
        text::begins_with(cwd, '/'),
    ensures
        text::begins_with(resolved_path(cwd, value), '/') || (uri_like(value) && resolved_path(
            cwd,
            value,
        ) == value),
{
}

/// The suffix of a `:line` or `:line:column` argument, with what stands
/// before it, is the argument; it is one or two colons, each followed by
/// digits, and it is missing exactly where no colon with digits after it
/// stands at the end.
pub proof fn law_goto_suffix_form(value: Seq<char>)
    ensures
        match goto_suffix(value) {
            Some((path, suffix)) => {
                &&& path + suffix == value
                &&& is_line_suffix(suffix) || exists|k: int|
                    0 < k < suffix.len() && is_line_suffix(suffix.take(k)) && is_line_suffix(
                        #[trigger] suffix.skip(k),
                    )
            },
            None => forall|k: int|
                0 <= k <= value.len() ==> !is_line_suffix(#[trigger] value.skip(k)),
        },
{
    text::lemma_last_of(value, ':');
    let colon = text::last_of(value, ':');
    if let Some((head, last)) = numeric_suffix(value) {
        if last.len() > 0 {
            let tail = value.skip(colon);
            assert(tail.skip(1) == last);
            text::lemma_last_of(head, ':');
            let inner = text::last_of(head, ':');
            if let Some((path, line)) = numeric_suffix(head) {
                if line.len() > 0 {
                    let suffix = value.skip(inner);
                    let k = colon - inner;
                    assert(suffix.skip(k) == tail);
                    assert(suffix.take(k).skip(1) == line);
                    assert(is_line_suffix(suffix.take(k)));
                    assert(path + suffix == value);
                } else {
                    assert(head + tail == value);
                }
            } else {
                assert(head + tail == value);
            }
        }
    }
    if goto_suffix(value) is None {
        assert forall|k: int| 0 <= k <= value.len() implies !is_line_suffix(
            #[trigger] value.skip(k),
        ) by {
            if is_line_suffix(value.skip(k)) {
                let tail = value.skip(k);
                assert(value[k] == ':');
                assert forall|i: int| k < i < value.len() implies value[i] != ':' by {
                    assert(number::is_digit(tail.skip(1)[i - k - 1]));
                }
                text::lemma_last_of_is(value, ':', k);
                assert(value.skip(k + 1) == tail.skip(1));
            }
        }
    }
}

/// Whether `s` is a colon and digits, at least one.
pub open spec fn is_line_suffix(s: Seq<char>) -> bool {
    s.len() > 1 && s[0] == ':' && number::all_digits(s.skip(1))
}

/// Pieces without `c` at the end of two equal texts are equal where a `c`
/// stands before each.
proof fn lemma_same_last_piece(a: Seq<char>, u: Seq<char>, b: Seq<char>, v: Seq<char>, c: char)
    requires
        a.push(c) + u == b.push(c) + v,
        text::is_free_of(u, c),
        text::is_free_of(v, c),
    ensures
        a == b,
        u == v,
{
    let whole = a.push(c) + u;
    assert forall|i: int| a.len() < i < whole.len() implies whole[i] != c by {
        assert(whole[i] == u[i - a.len() - 1]);
    }
    assert forall|i: int| b.len() < i < whole.len() implies whole[i] != c by {
        assert(whole[i] == v[i - b.len() - 1]);
    }
    assert(whole[a.len() as int] == c);
    assert((b.push(c) + v)[b.len() as int] == c);
    text::lemma_last_of_is(whole, c, a.len() as int);
    text::lemma_last_of_is(whole, c, b.len() as int);
    assert(a == whole.take(a.len() as int));
    assert(b == (b.push(c) + v).take(b.len() as int));
    assert(u == whole.skip(a.len() as int + 1));
    assert(v == (b.push(c) + v).skip(b.len() as int + 1));
}

/// Nothing at all is the root directory, and a path is read from the root
/// whether or not it begins with a slash.
pub proof fn law_normal_path_of_root(path: Seq<char>)
    ensures
        normal_path(Seq::empty()) == seq!['/'],
        normal_path(seq!['/'] + path) == normal_path(path),
{
    let empty = Seq::<char>::empty();
    assert(text::split(empty, '/') == seq![empty]);
    assert(seq![empty].drop_last() == Seq::<Seq<char>>::empty());
    assert(climb(Seq::<Seq<char>>::empty()) == Seq::<Seq<char>>::empty());
    assert(climb(seq![empty]) == Seq::<Seq<char>>::empty());
    assert(normal_path(empty) == seq!['/']);
    lemma_split_leading(path);
    let pieces = text::split(path, '/');
    lemma_climb_concat(seq![empty], Seq::<Seq<char>>::empty(), pieces);
    assert(Seq::<Seq<char>>::empty() + pieces == pieces);
}

proof fn lemma_split_leading(path: Seq<char>)
    ensures
        text::split(seq!['/'] + path, '/') == seq![Seq::<char>::empty()] + text::split(path, '/'),
    decreases path.len(),
{
    let empty = Seq::<char>::empty();
    let whole = seq!['/'] + path;
    text::lemma_split_pieces(path, '/');
    if path.len() == 0 {
        assert(whole.drop_last() == empty);
        assert(text::split(empty, '/') == seq![empty]);
        assert(text::split(whole, '/') == seq![empty] + text::split(path, '/'));
    } else {
        lemma_split_leading(path.drop_last());
        text::lemma_split_pieces(path.drop_last(), '/');
        assert(whole.drop_last() == seq!['/'] + path.drop_last());
        assert(whole.last() == path.last());
        assert(text::split(whole, '/') == seq![empty] + text::split(path, '/'));
    }
}

/// A slash, and `.` after it, at the end of a path lead nowhere else.
pub proof fn law_normal_path_stays(path: Seq<char>)
    ensures
        normal_path(path.push('/')) == normal_path(path),
        normal_path(path + "/."@) == normal_path(path),
{
    let empty = Seq::<char>::empty();
    reveal_strlit("/.");
    reveal_strlit(".");
    assert(path.push('/') + empty == path.push('/'));
    text::lemma_split_next(path, empty, '/');
    let start = text::split(path, '/');
    assert(start.push(empty).drop_last() == start);
    assert("."@ == seq!['.']);
    assert(path + "/."@ == path.push('/') + "."@);
    text::lemma_split_next(path, "."@, '/');
    assert(start.push("."@).drop_last() == start);
}

/// A name at the end of a path leads from what stands before it to what has
/// that name there.
pub proof fn law_normal_path_descends(path: Seq<char>, name: Seq<char>)
    requires
        name.len() > 0,
        name != "."@,
        name != ".."@,
        !name.contains('/'),
    ensures
        normal_path(path + "/"@ + name) == (if normal_path(path) == "/"@ {
            "/"@ + name
        } else {
            normal_path(path) + "/"@ + name
        }),
{
    reveal_strlit("/");
    assert("/"@ == seq!['/']);
    assert(path + "/"@ + name == path.push('/') + name);
    text::lemma_split_next(path, name, '/');
    law_normal_path_form(path);
    let start = text::split(path, '/');
    let kept = climb(start);
    assert(start.push(name).drop_last() == start);
    assert(climb(start.push(name)) == kept.push(name));
    assert(kept.push(name).drop_last() == kept);
    if kept.len() == 0 {
        assert(normal_path(path) == "/"@);
        assert(kept.push(name) == seq![name]);
    } else {
        lemma_join_not_empty(kept);
        assert(normal_path(path).len() > 1);
        assert(normal_path(path) + "/"@ + name == seq!['/'] + (text::join(kept, '/').push('/')
            + name));
    }
}

proof fn lemma_join_not_empty(pieces: Seq<Seq<char>>)
    requires
        pieces.len() > 0,
        all_proper(pieces),
    ensures
        text::join(pieces, '/').len() > 0,
{
    assert(is_proper(pieces[0]));
}

/// `..` at the end of a path leads to the directory above what stands before
/// it, and from the root to the root.
pub proof fn law_normal_path_climbs(path: Seq<char>, above: Seq<char>, name: Seq<char>)
    ensures
        normal_path(path) == "/"@ ==> normal_path(path + "/.."@) == "/"@,
        normal_path(path) == above + "/"@ + name && name.len() > 0 && !name.contains('/')
            ==> normal_path(path + "/.."@) == (if above.len() == 0 {
            "/"@
        } else {
            above
        }),
{
    reveal_strlit("/");
    reveal_strlit("/..");
    reveal_strlit("..");
    reveal_strlit(".");
    assert("/"@ == seq!['/']);
    assert(path + "/.."@ == path.push('/') + ".."@);
    text::lemma_split_next(path, ".."@, '/');
    law_normal_path_form(path);
    let start = text::split(path, '/');
    let kept = climb(start);
    assert(start.push(".."@).drop_last() == start);
    if kept.len() == 0 {
        assert(normal_path(path) == "/"@);
    } else {
        lemma_join_not_empty(kept);
        assert(normal_path(path).len() > 1);
        assert(climb(start.push(".."@)) == kept.drop_last());
        if normal_path(path) == above + "/"@ + name && name.len() > 0 && !name.contains('/') {
            assert(is_proper(kept[kept.len() - 1]));
            let init = kept.drop_last();
            let parent = if init.len() == 0 {
                Seq::<char>::empty()
            } else {
                seq!['/'] + text::join(init, '/')
            };
            assert(normal_path(path) == parent.push('/') + kept.last()) by {
                if init.len() == 0 {
                    assert(text::join(kept, '/') == kept[0]);
                }
            }
            assert(above + "/"@ + name == above.push('/') + name);
            lemma_same_last_piece(parent, kept.last(), above, name, '/');
            if init.len() == 0 {
                assert(normal_path(path + "/.."@) == "/"@);
            }
        }
    }
}

/// A text begins like a URI exactly when letters, digits, `+`, `-` and `.`,
/// at least one, stand before a colon.
pub proof fn law_uri_form(s: Seq<char>)
    ensures
        uri_like(s) <==> exists|k: int|
            0 < k < s.len() && #[trigger] s[k] == ':' && forall|i: int|
                0 <= i < k ==> ('a' <= #[trigger] s[i] <= 'z' || 'A' <= s[i] <= 'Z' || '0' <= s[i]
                    <= '9' || s[i] == '+' || s[i] == '-' || s[i] == '.'),
{
    text::lemma_first_of(s, ':');
    let colon = text::first_of(s, ':');
    if uri_like(s) {
        assert(s[colon] == ':');
        assert forall|i: int| 0 <= i < colon implies ('a' <= #[trigger] s[i] <= 'z' || 'A' <= s[i]
            <= 'Z' || '0' <= s[i] <= '9' || s[i] == '+' || s[i] == '-' || s[i] == '.') by {
            assert(is_scheme_char(s[i]));
        }
    }
    if exists|k: int|
        0 < k < s.len() && #[trigger] s[k] == ':' && forall|i: int|
            0 <= i < k ==> ('a' <= #[trigger] s[i] <= 'z' || 'A' <= s[i] <= 'Z' || '0' <= s[i]
                <= '9' || s[i] == '+' || s[i] == '-' || s[i] == '.') {
        let k = choose|k: int|
            0 < k < s.len() && #[trigger] s[k] == ':' && forall|i: int|
                0 <= i < k ==> ('a' <= #[trigger] s[i] <= 'z' || 'A' <= s[i] <= 'Z' || '0' <= s[i]
                    <= '9' || s[i] == '+' || s[i] == '-' || s[i] == '.');
        text::lemma_first_of_is(s, ':', k);
        assert(uri_like(s));
    }
}

/// `.` is the directory itself; what begins with a slash or like a URI stays
/// as it is; anything else is looked for below the directory.
pub proof fn law_resolution(cwd: Seq<char>, value: Seq<char>)
    ensures
        value == "."@ ==> resolved_path(cwd, value) == cwd,
        value.len() > 0 && value[0] == '/' ==> resolved_path(cwd, value) == value,
        uri_like(value) ==> resolved_path(cwd, value) == value,
        value != "."@ && !(value.len() > 0 && value[0] == '/') && !uri_like(value)
            ==> resolved_path(cwd, value) == normal_path(cwd + "/"@ + value),
{
    reveal_strlit(".");
    reveal_strlit("/");
    assert("/"@ == seq!['/']);
    assert(cwd + "/"@ + value == cwd.push('/') + value);
    if value == "."@ {
        text::lemma_first_of(value, ':');
        assert(value[0] == '.');
    }
}

/// Where digits, or nothing, follow the last colon of a text, it is parted
/// there; no other text is parted.
pub proof fn law_numeric_suffix(value: Seq<char>, head: Seq<char>, digits: Seq<char>)
    ensures
        (forall|i: int| 0 <= i < digits.len() ==> '0' <= #[trigger] digits[i] <= '9')
            ==> numeric_suffix(head + ":"@ + digits) == Some((head, digits)),
        numeric_suffix(value) matches Some((left, right)) ==> {
            &&& left + ":"@ + right == value
            &&& forall|i: int| 0 <= i < right.len() ==> '0' <= #[trigger] right[i] <= '9'
        },
{
    reveal_strlit(":");
    assert(":"@ == seq![':']);
    let whole = head + ":"@ + digits;
    let colon = head.len() as int;
    if forall|i: int| 0 <= i < digits.len() ==> '0' <= #[trigger] digits[i] <= '9' {
        assert(whole[colon] == ':');
        assert forall|i: int| colon < i < whole.len() implies whole[i] != ':' by {
            assert(whole[i] == digits[i - colon - 1]);
        }
        text::lemma_last_of_is(whole, ':', colon);
        assert(whole.skip(colon + 1) == digits);
        assert(whole.take(colon) == head);
        assert(number::all_digits(digits));
    }
    text::lemma_last_of(value, ':');
    if let Some((left, right)) = numeric_suffix(value) {
        assert(left + ":"@ + right == value);
        assert forall|i: int| 0 <= i < right.len() implies '0' <= #[trigger] right[i] <= '9' by {
            assert(number::is_digit(right[i]));
        }
    }
}

/// Whether a text ends in a colon and digits, at least one.
pub open spec fn ends_in_number(s: Seq<char>) -> bool {
    exists|k: int|
        0 <= k < s.len() - 1 && #[trigger] s[k] == ':' && forall|i: int|
            k < i < s.len() ==> '0' <= #[trigger] s[i] <= '9'
}

proof fn lemma_ends_in_number(s: Seq<char>)
    ensures
        ends_in_number(s) <==> (numeric_suffix(s) matches Some((_, digits)) && digits.len() > 0),
{
    text::lemma_last_of(s, ':');
    let colon = text::last_of(s, ':');
    if ends_in_number(s) {
        let k = choose|k: int|
            0 <= k < s.len() - 1 && #[trigger] s[k] == ':' && forall|i: int|
                k < i < s.len() ==> '0' <= #[trigger] s[i] <= '9';
        text::lemma_last_of_is(s, ':', k);
        let tail = s.skip(k + 1);
        assert forall|i: int| 0 <= i < tail.len() implies number::is_digit(#[trigger] tail[i]) by {
            assert(tail[i] == s[k + 1 + i]);
        }
    }
    if let Some((_, digits)) = numeric_suffix(s) {
        if digits.len() > 0 {
            assert(s[colon] == ':');
            assert forall|i: int| colon < i < s.len() implies '0' <= #[trigger] s[i] <= '9' by {
                assert(number::is_digit(digits[i - colon - 1]));
            }
        }
    }
}

/// `file:line:column` names that line and column of whatever `file` names,
/// and `file:line` that line of it, unless `file` ends in a number of its
/// own; any other text is the file itself.
pub proof fn law_goto_target(
    cwd: Seq<char>,
    file: Seq<char>,
    line: Seq<char>,
    column: Seq<char>,
)
    requires
        line.len() > 0,
        column.len() > 0,
        forall|i: int| 0 <= i < line.len() ==> '0' <= #[trigger] line[i] <= '9',
        forall|i: int| 0 <= i < column.len() ==> '0' <= #[trigger] column[i] <= '9',
    ensures
        goto_suffix(file + ":"@ + line + ":"@ + column) == Some(
            (file, ":"@ + line + ":"@ + column),
        ),
        goto_target(cwd, file + ":"@ + line + ":"@ + column) == resolved_path(cwd, file) + ":"@
            + line + ":"@ + column,
        !ends_in_number(file) ==> goto_suffix(file + ":"@ + line) == Some((file, ":"@ + line)),
        !ends_in_number(file) ==> goto_target(cwd, file + ":"@ + line) == resolved_path(cwd, file)
            + ":"@ + line,
        !ends_in_number(file) ==> goto_suffix(file) is None,
        !ends_in_number(file) ==> goto_target(cwd, file) == resolved_path(cwd, file),
{
    let short = file + ":"@ + line;
    let long = short + ":"@ + column;
    let long_suffix = ":"@ + line + ":"@ + column;
    reveal_strlit(":");
    law_numeric_suffix(file, file, line);
    law_numeric_suffix(file, short, column);
    lemma_ends_in_number(file);
    assert(long.skip(file.len() as int) == long_suffix);
    assert(short.skip(file.len() as int) == ":"@ + line);
    assert(resolved_path(cwd, file) + long_suffix == resolved_path(cwd, file) + ":"@ + line + ":"@
        + column);
    assert(resolved_path(cwd, file) + (":"@ + line) == resolved_path(cwd, file) + ":"@ + line);
}

} // verus!
