//! Paths, with `/` between their names.

use crate::text;
use crate::text::Separator;
use vstd::prelude::*;
use vstd::string::*;

verus! {

/// The last of `names` other than the current directory's `.`.
pub open spec fn last_name(names: Seq<Seq<char>>) -> Option<Seq<char>>
    decreases names.len(),
{
    if names.len() == 0 {
        None
    } else if names.last() == "."@ {
        last_name(names.drop_last())
    } else {
        Some(names.last())
    }
}

/// The last name of a path, where the path ends in one: the root, the current
/// directory and a path that ends in `..` have none.
pub open spec fn base_name(path: Seq<char>) -> Option<Seq<char>> {
    match last_name(text::runs(path, Separator::Slash)) {
        Some(name) if name != ".."@ => Some(name),
        _ => None,
    }
}

/// The last name of a path, where the path ends in one.
pub fn file_name(path: &str) -> (r: Option<String>)
    ensures
        text::opt_text(r) == base_name(path@),
{
    let names = text::split_runs(path, Separator::Slash);
    let ghost all = text::texts(names@);
    let mut n: usize = names.len();
    assert(all.take(n as int) == all);
    while n > 0
        invariant
            n <= names@.len(),
            all == text::texts(names@),
            last_name(all.take(n as int)) == last_name(all),
            all == text::runs(path@, Separator::Slash),
        decreases n,
    {
        assert(all.take(n as int).last() == names@[n - 1]@);
        assert(all.take(n as int).drop_last() == all.take(n - 1));
        let name = names[n - 1].as_str();
        if !name.eq(".") {
            return if name.eq("..") {
                None
            } else {
                Some(name.to_owned())
            };
        }
        n -= 1;
    }
    None
}

/// The text up to the first slash.
pub open spec fn first_piece(s: Seq<char>) -> Seq<char> {
    s.take(text::run_len(s, Separator::Slash) as int)
}

/// The text behind the first slash.
pub open spec fn after_piece(s: Seq<char>) -> Seq<char> {
    let n = text::run_len(s, Separator::Slash) as int;
    if n < s.len() {
        s.skip(n + 1)
    } else {
        Seq::empty()
    }
}

/// Whether a piece of a path names nothing: it is empty, or the current
/// directory.
pub open spec fn names_nothing(piece: Seq<char>) -> bool {
    piece.len() == 0 || piece == "."@
}

/// `s` from its first name on.
pub open spec fn from_first_name(s: Seq<char>) -> Seq<char>
    decreases s.len(),
{
    if s.len() > 0 && names_nothing(first_piece(s)) {
        proof {
            lemma_after_piece_is_shorter(s);
        }
        from_first_name(after_piece(s))
    } else {
        s
    }
}

/// What comes behind the first piece is shorter than the whole.
pub proof fn lemma_after_piece_is_shorter(s: Seq<char>)
    ensures
        s.len() > 0 ==> after_piece(s).len() < s.len(),
{
}

/// A text that starts with a name is no longer than the whole.
pub proof fn lemma_first_name(s: Seq<char>)
    ensures
        from_first_name(s).len() <= s.len(),
        from_first_name(s).len() > 0 ==> !names_nothing(first_piece(from_first_name(s))),
    decreases s.len(),
{
    if s.len() > 0 && names_nothing(first_piece(s)) {
        lemma_after_piece_is_shorter(s);
        lemma_first_name(after_piece(s));
    }
}

/// How many characters at the end of `s` come behind the last slash.
pub open spec fn last_piece_len(s: Seq<char>) -> nat
    decreases s.len(),
{
    if s.len() == 0 || s.last() == '/' {
        0
    } else {
        1 + last_piece_len(s.drop_last())
    }
}

/// `s` up to the end of its last name.
pub open spec fn to_last_name(s: Seq<char>) -> Seq<char>
    decreases s.len(),
{
    let n = last_piece_len(s) as int;
    if s.len() == 0 || n > s.len() || !names_nothing(s.skip(s.len() - n)) {
        s
    } else if n == s.len() {
        Seq::empty()
    } else {
        to_last_name(s.take(s.len() - n - 1))
    }
}

/// How many characters make up the anchor of a path: the slash of the root, or
/// the dot of a path that starts at the current directory.
pub open spec fn anchor_len(path: Seq<char>) -> int {
    if path.len() > 0 && (path[0] == '/' || first_piece(path) == "."@) {
        1
    } else {
        0
    }
}

/// What is left of the names of `path` behind those of `base`, where `path`
/// starts with them.
pub open spec fn behind_names(path: Seq<char>, base: Seq<char>) -> Option<Seq<char>>
    decreases base.len(),
{
    let b = from_first_name(base);
    if b.len() == 0 {
        Some(path)
    } else {
        let p = from_first_name(path);
        if p.len() > 0 && first_piece(p) == first_piece(b) {
            proof {
                lemma_first_name(base);
                lemma_after_piece_is_shorter(b);
            }
            behind_names(after_piece(p), after_piece(b))
        } else {
            None
        }
    }
}

/// The part of `path` below the directory `base`, where it lies there: both
/// have the same anchor and `path` starts with the names of `base`.
pub open spec fn below(path: Seq<char>, base: Seq<char>) -> Option<Seq<char>> {
    let n = anchor_len(path);
    let m = anchor_len(base);
    if base.len() == 0 {
        Some(path.take(n) + to_last_name(path.skip(n)))
    } else if n != m || (n == 1 && path[0] != base[0]) {
        None
    } else {
        match behind_names(path.skip(n), base.skip(m)) {
            Some(rest) => Some(to_last_name(from_first_name(rest))),
            None => None,
        }
    }
}

/// A path as it is shown: `~/` and the rest where it lies below the home
/// directory, else as it is.
pub open spec fn shown_path(path: Seq<char>, home: Option<Seq<char>>) -> Seq<char> {
    match home {
        Some(home) => match below(path, home) {
            Some(rest) => "~/"@ + rest,
            None => path,
        },
        None => path,
    }
}

/// The end of the piece that starts at `at`.
fn piece_end(cs: &Vec<char>, at: usize) -> (r: usize)
    requires
        at <= cs@.len(),
    ensures
        at <= r <= cs@.len(),
        first_piece(cs@.skip(at as int)) == cs@.subrange(at as int, r as int),
        after_piece(cs@.skip(at as int)) == if r < cs@.len() {
            cs@.skip(r + 1)
        } else {
            Seq::empty()
        },
{
    let mut end: usize = at;
    while end < cs.len() && cs[end] != '/'
        invariant
            at <= end <= cs@.len(),
            forall|i: int| at <= i < end ==> #[trigger] cs@[i] != '/',
        decreases cs@.len() - end,
    {
        end += 1;
    }
    proof {
        let s = cs@.skip(at as int);
        assert forall|i: int| 0 <= i < end - at implies !Separator::Slash.parts(
            #[trigger] s[i],
        ) by {
            assert(s[i] == cs@[at + i]);
        }
        text::lemma_run_len(s, Separator::Slash, end - at);
        assert(s.take(end - at) =~= cs@.subrange(at as int, end as int));
        assert(end < cs@.len() ==> s.skip(end - at + 1) =~= cs@.skip(end + 1));
    }
    end
}

/// Whether the piece `cs[from..to]` is the current directory's dot.
fn is_dot(cs: &Vec<char>, from: usize, to: usize) -> (r: bool)
    requires
        from <= to <= cs@.len(),
    ensures
        r == (cs@.subrange(from as int, to as int) == "."@),
{
    proof {
        reveal_strlit(".");
        let piece = cs@.subrange(from as int, to as int);
        assert(to - from == 1 && piece[0] == '.' ==> piece =~= "."@);
        assert(piece == "."@ ==> piece.len() == 1 && piece[0] == '.');
        assert(from < to ==> piece[0] == cs@[from as int]);
    }
    to - from == 1 && cs[from] == '.'
}

/// The start of the first name from `at` on.
fn first_name_at(cs: &Vec<char>, at: usize) -> (r: usize)
    requires
        at <= cs@.len(),
    ensures
        at <= r <= cs@.len(),
        cs@.skip(r as int) == from_first_name(cs@.skip(at as int)),
{
    let mut i: usize = at;
    while i < cs.len()
        invariant
            at <= i <= cs@.len(),
            from_first_name(cs@.skip(i as int)) == from_first_name(cs@.skip(at as int)),
        decreases cs@.len() - i,
    {
        let end = piece_end(cs, i);
        if end == i || is_dot(cs, i, end) {
            if end == cs.len() {
                assert(cs@.skip(cs@.len() as int) =~= Seq::empty());
                i = end;
            } else {
                i = end + 1;
            }
        } else {
            return i;
        }
    }
    i
}

proof fn lemma_last_piece_len_is(s: Seq<char>, n: int)
    requires
        0 <= n <= s.len(),
        forall|i: int| s.len() - n <= i < s.len() ==> #[trigger] s[i] != '/',
        n < s.len() ==> s[s.len() - n - 1] == '/',
    ensures
        last_piece_len(s) == n,
    decreases n,
{
    if n > 0 {
        assert(s.last() != '/');
        lemma_last_piece_len_is(s.drop_last(), n - 1);
    }
}

/// The end of the last name of `cs` from `from` on; `from` where there is none.
fn last_name_end(cs: &Vec<char>, from: usize) -> (r: usize)
    requires
        from <= cs@.len(),
    ensures
        from <= r <= cs@.len(),
        cs@.subrange(from as int, r as int) == to_last_name(cs@.skip(from as int)),
{
    let mut to: usize = cs.len();
    assert(cs@.skip(from as int) =~= cs@.subrange(from as int, to as int));
    while to > from
        invariant
            from <= to <= cs@.len(),
            to_last_name(cs@.subrange(from as int, to as int)) == to_last_name(
                cs@.skip(from as int),
            ),
        decreases to,
    {
        let ghost s = cs@.subrange(from as int, to as int);
        let mut start: usize = to;
        while start > from && cs[start - 1] != '/'
            invariant
                from <= start <= to <= cs@.len(),
                forall|i: int| start <= i < to ==> #[trigger] cs@[i] != '/',
            decreases start,
        {
            start -= 1;
        }
        proof {
            assert forall|i: int| s.len() - (to - start) <= i < s.len() implies #[trigger] s[i]
                != '/' by {
                assert(s[i] == cs@[from + i]);
            }
            lemma_last_piece_len_is(s, to - start);
            assert(s.skip(s.len() - (to - start)) =~= cs@.subrange(start as int, to as int));
        }
        if start < to && !is_dot(cs, start, to) {
            return to;
        }
        if start == from {
            assert(cs@.subrange(from as int, from as int) =~= Seq::empty());
            to = from;
        } else {
            assert(s.take(s.len() - (to - start) - 1) =~= cs@.subrange(
                from as int,
                start - 1,
            ));
            to = start - 1;
        }
    }
    to
}

/// How many characters make up the anchor of a path.
fn anchor_of(cs: &Vec<char>) -> (r: usize)
    ensures
        r == anchor_len(cs@),
        r <= cs@.len(),
{
    if cs.len() == 0 {
        return 0;
    }
    let end = piece_end(cs, 0);
    assert(cs@.skip(0) =~= cs@);
    if cs[0] == '/' || is_dot(cs, 0, end) {
        1
    } else {
        0
    }
}

/// The part of `path` below the directory `base`, where it lies there.
pub fn strip_base(path: &str, base: &str) -> (r: Option<String>)
    ensures
        text::opt_text(r) == below(path@, base@),
{
    let p = text::chars_of(path);
    let b = text::chars_of(base);
    let n = anchor_of(&p);
    let m = anchor_of(&b);
    if b.len() == 0 {
        let end = last_name_end(&p, n);
        assert(p@.subrange(0, end as int) =~= p@.take(n as int) + p@.subrange(
            n as int,
            end as int,
        ));
        return Some(text::text_of(&p, 0, end));
    }
    if n != m || (n == 1 && p[0] != b[0]) {
        return None;
    }
    let mut i: usize = n;
    let mut j: usize = m;
    loop
        invariant
            i <= p@.len(),
            j <= b@.len(),
            p@ == path@,
            b@ == base@,
            b@.len() > 0,
            n == anchor_len(p@) == m == anchor_len(b@),
            n == 1 ==> p@[0] == b@[0],
            behind_names(p@.skip(i as int), b@.skip(j as int)) == behind_names(
                p@.skip(n as int),
                b@.skip(m as int),
            ),
        decreases b@.len() - j,
    {
        let start = first_name_at(&b, j);
        if start == b.len() {
            let from = first_name_at(&p, i);
            let end = last_name_end(&p, from);
            return Some(text::text_of(&p, from, end));
        }
        let from = first_name_at(&p, i);
        if from == p.len() {
            return None;
        }
        let b_end = piece_end(&b, start);
        let p_end = piece_end(&p, from);
        let b_piece = text::text_of(&b, start, b_end);
        let p_piece = text::text_of(&p, from, p_end);
        if !p_piece.as_str().eq(b_piece.as_str()) {
            return None;
        }
        proof {
            lemma_first_name(b@.skip(j as int));
        }
        assert(p@.skip(p@.len() as int) =~= Seq::empty());
        assert(b@.skip(b@.len() as int) =~= Seq::empty());
        i = if p_end < p.len() {
            p_end + 1
        } else {
            p_end
        };
        j = if b_end < b.len() {
            b_end + 1
        } else {
            b_end
        };
    }
}

/// Render a path for display: `~/...` under home, else as-is.
pub fn display_path(path: &str, home: Option<&str>) -> (r: String)
    ensures
        r@ == shown_path(path@, text::opt_str(home)),
{
    if let Some(home) = home {
        if let Some(rest) = strip_base(path, home) {
            let mut out = "~/".to_owned();
            out.append(rest.as_str());
            return out;
        }
    }
    path.to_owned()
}

/// Whether a text is the name of something in a directory.
pub open spec fn is_name(s: Seq<char>) -> bool {
    s.len() > 0 && !s.contains('/') && s != "."@
}

proof fn lemma_name_has_no_slash(s: Seq<char>)
    requires
        is_name(s),
    ensures
        forall|i: int| 0 <= i < s.len() ==> !Separator::Slash.parts(#[trigger] s[i]),
        text::run_len(s, Separator::Slash) == s.len(),
        text::runs(s, Separator::Slash) == seq![s],
{
    assert forall|i: int| 0 <= i < s.len() implies !Separator::Slash.parts(#[trigger] s[i]) by {
        assert(s.contains(s[i]));
    }
    text::lemma_run_len(s, Separator::Slash, s.len() as int);
    text::lemma_single_run(s, Separator::Slash);
}

/// The base name of a path is what stands behind its last slash, where slashes
/// at the very end do not count; the parent directory is no name.
pub proof fn law_base_name_is_the_last_name(dir: Seq<char>, name: Seq<char>, tail: Seq<char>)
    requires
        is_name(name),
        text::is_all(tail, '/'),
    ensures
        base_name(dir + "/"@ + name + tail) == if name == ".."@ {
            None
        } else {
            Some(name)
        },
        base_name(name + tail) == if name == ".."@ {
            None
        } else {
            Some(name)
        },
        base_name(tail) is None,
{
    reveal_strlit("/");
    let by = Separator::Slash;
    lemma_name_has_no_slash(name);
    assert forall|i: int| 0 <= i < tail.len() implies by.parts(#[trigger] tail[i]) by {
        assert(tail[i] == '/');
    }
    let none = Seq::<char>::empty();
    let end = name + tail;
    assert(text::runs(tail, by) == Seq::<Seq<char>>::empty()) by {
        if tail.len() > 0 {
            text::law_runs_stand_between_separators(none, tail, none, by);
        } else {
            assert(tail =~= none);
        }
    }
    assert(text::runs(end, by) =~= seq![name]) by {
        if tail.len() > 0 {
            text::law_runs_stand_between_separators(name, tail, none, by);
            assert(name + tail + none =~= end);
            assert(text::runs(none, by) =~= Seq::empty());
        } else {
            assert(end =~= name);
        }
    }
    let gap = "/"@;
    assert forall|i: int| 0 <= i < gap.len() implies by.parts(#[trigger] gap[i]) by {}
    text::law_runs_stand_between_separators(dir, gap, end, by);
    assert(dir + "/"@ + name + tail =~= dir + gap + end);
    let names = text::runs(dir, by) + seq![name];
    assert(names.last() == name);
    assert(seq![name].last() == name);
}

/// A path from the root down, by its names.
pub open spec fn path_of(names: Seq<Seq<char>>) -> Seq<char> {
    "/"@ + text::joined(names, "/"@)
}

proof fn lemma_joined_front(names: Seq<Seq<char>>)
    requires
        names.len() > 1,
    ensures
        text::joined(names, "/"@) == names[0] + "/"@ + text::joined(names.drop_first(), "/"@),
{
    text::law_joining_parts_neighbours(seq![names[0]], names.drop_first(), "/"@);
    assert(names =~= seq![names[0]] + names.drop_first());
}

/// The first piece of joined names is the first name, and what is behind it are
/// the others.
proof fn lemma_pieces(names: Seq<Seq<char>>)
    requires
        names.len() > 0,
        forall|i: int| 0 <= i < names.len() ==> is_name(#[trigger] names[i]),
    ensures
        text::joined(names, "/"@).len() > 0,
        first_piece(text::joined(names, "/"@)) == names[0],
        after_piece(text::joined(names, "/"@)) == text::joined(names.drop_first(), "/"@),
        from_first_name(text::joined(names, "/"@)) == text::joined(names, "/"@),
{
    reveal_strlit("/");
    let all = text::joined(names, "/"@);
    let first = names[0];
    let n = first.len() as int;
    assert(is_name(first));
    lemma_name_has_no_slash(first);
    if names.len() == 1 {
        assert(all =~= first);
        assert(names.drop_first() =~= Seq::empty());
        assert(text::joined(names.drop_first(), "/"@) =~= Seq::empty());
    } else {
        lemma_joined_front(names);
        assert(all[n] == '/');
    }
    assert forall|i: int| 0 <= i < n implies !Separator::Slash.parts(#[trigger] all[i]) by {
        assert(all[i] == first[i]);
    }
    text::lemma_run_len(all, Separator::Slash, n);
    assert(all.take(n) =~= first);
    if names.len() > 1 {
        assert(all.skip(n + 1) =~= text::joined(names.drop_first(), "/"@));
    }
    assert(!names_nothing(first));
}

proof fn lemma_behind(path: Seq<Seq<char>>, base: Seq<Seq<char>>)
    requires
        forall|i: int| 0 <= i < path.len() ==> is_name(#[trigger] path[i]),
        forall|i: int| 0 <= i < base.len() ==> is_name(#[trigger] base[i]),
    ensures
        behind_names(text::joined(path, "/"@), text::joined(base, "/"@)) == if base.len()
            <= path.len() && path.take(base.len() as int) == base {
            Some(text::joined(path.skip(base.len() as int), "/"@))
        } else {
            None
        },
    decreases base.len(),
{
    let j = text::joined(path, "/"@);
    let k = text::joined(base, "/"@);
    if base.len() == 0 {
        assert(k =~= Seq::empty());
        assert(path.take(0) =~= base);
        assert(path.skip(0) =~= path);
    } else {
        lemma_pieces(base);
        let rest = base.drop_first();
        assert forall|i: int| 0 <= i < rest.len() implies is_name(#[trigger] rest[i]) by {
            assert(rest[i] == base[i + 1]);
        }
        if path.len() == 0 {
            assert(j =~= Seq::empty());
        } else {
            lemma_pieces(path);
            let more = path.drop_first();
            assert forall|i: int| 0 <= i < more.len() implies is_name(#[trigger] more[i]) by {
                assert(more[i] == path[i + 1]);
            }
            lemma_behind(more, rest);
            if path.take(base.len() as int) == base && base.len() <= path.len() {
                assert(path[0] == path.take(base.len() as int)[0]);
                assert(more.take(rest.len() as int) =~= base.skip(1)) by {
                    assert(base.skip(1) =~= path.take(base.len() as int).skip(1));
                }
                assert(rest =~= base.skip(1));
                assert(more.skip(rest.len() as int) =~= path.skip(base.len() as int));
            } else if path[0] == base[0] && rest.len() <= more.len() {
                if more.take(rest.len() as int) == rest {
                    assert(path.take(base.len() as int) =~= seq![path[0]] + more.take(
                        rest.len() as int,
                    ));
                    assert(base =~= seq![base[0]] + rest);
                }
            }
        }
    }
}

proof fn lemma_ends_in_its_last_name(names: Seq<Seq<char>>)
    requires
        forall|i: int| 0 <= i < names.len() ==> is_name(#[trigger] names[i]),
    ensures
        to_last_name(text::joined(names, "/"@)) == text::joined(names, "/"@),
{
    reveal_strlit("/");
    let all = text::joined(names, "/"@);
    if names.len() > 0 {
        let last = names.last();
        assert(is_name(names[names.len() - 1]));
        let n = last.len() as int;
        let at = all.len() - n;
        assert(all.skip(at) =~= last) by {
            if names.len() == 1 {
                assert(all =~= last);
            }
        }
        if names.len() > 1 {
            assert(all[at - 1] == '/');
        }
        assert forall|i: int| at <= i < all.len() implies #[trigger] all[i] != '/' by {
            assert(all.skip(at)[i - at] == all[i]);
            assert(last.contains(last[i - at]));
        }
        lemma_last_piece_len_is(all, n);
    }
}

/// A path below the home directory is shown by the names that lead there from
/// it, and any other as it is.
pub proof fn law_home_is_shown_as_a_tilde(home: Seq<Seq<char>>, path: Seq<Seq<char>>)
    requires
        forall|i: int| 0 <= i < home.len() ==> is_name(#[trigger] home[i]),
        forall|i: int| 0 <= i < path.len() ==> is_name(#[trigger] path[i]),
    ensures
        home.len() <= path.len() && path.take(home.len() as int) == home ==> shown_path(
            path_of(path),
            Some(path_of(home)),
        ) == "~/"@ + text::joined(path.skip(home.len() as int), "/"@),
        !(home.len() <= path.len() && path.take(home.len() as int) == home) ==> shown_path(
            path_of(path),
            Some(path_of(home)),
        ) == path_of(path),
        shown_path(path_of(path), None) == path_of(path),
{
    reveal_strlit("/");
    let p = path_of(path);
    let h = path_of(home);
    assert(p[0] == '/' && h[0] == '/');
    assert(p.skip(1) =~= text::joined(path, "/"@));
    assert(h.skip(1) =~= text::joined(home, "/"@));
    lemma_behind(path, home);
    if home.len() <= path.len() && path.take(home.len() as int) == home {
        let rest = path.skip(home.len() as int);
        assert forall|i: int| 0 <= i < rest.len() implies is_name(#[trigger] rest[i]) by {
            assert(rest[i] == path[home.len() + i]);
        }
        lemma_ends_in_its_last_name(rest);
        if rest.len() > 0 {
            lemma_pieces(rest);
        } else {
            assert(text::joined(rest, "/"@) =~= Seq::empty());
        }
    }
}

/// The current directory at the end of a path does not count for its base name.
pub proof fn law_base_name_ignores_the_current_directory(path: Seq<char>)
    ensures
        base_name(path + "/."@) == base_name(path),
        base_name("."@) is None,
{
    reveal_strlit("/.");
    reveal_strlit(".");
    let by = Separator::Slash;
    let gap = seq!['/'];
    assert forall|i: int| 0 <= i < gap.len() implies by.parts(#[trigger] gap[i]) by {}
    text::law_runs_stand_between_separators(path, gap, "."@, by);
    assert(path + "/."@ =~= path + gap + "."@);
    assert forall|i: int| 0 <= i < "."@.len() implies !by.parts(#[trigger] "."@[i]) by {}
    text::lemma_single_run("."@, by);
    let names = text::runs(path, by) + seq!["."@];
    assert(names.drop_last() =~= text::runs(path, by));
    assert(names.last() == "."@);
    let one = seq!["."@];
    assert(one.drop_last() =~= Seq::empty());
    reveal_with_fuel(last_name, 2);
}

proof fn lemma_run_is(s: Seq<char>, by: Separator)
    ensures
        text::run_len(s, by) <= s.len(),
        forall|i: int| 0 <= i < text::run_len(s, by) ==> !by.parts(#[trigger] s[i]),
        text::run_len(s, by) < s.len() ==> by.parts(s[text::run_len(s, by) as int]),
    decreases s.len(),
{
    if s.len() > 0 && !by.parts(s[0]) {
        let rest = s.drop_first();
        lemma_run_is(rest, by);
        assert forall|i: int| 0 <= i < text::run_len(s, by) implies !by.parts(#[trigger] s[i]) by {
            if i > 0 {
                assert(s[i] == rest[i - 1]);
            }
        }
    }
}

/// What is appended with a slash leaves the first piece alone.
proof fn lemma_piece_before_a_slash(s: Seq<char>, t: Seq<char>)
    requires
        t.len() > 0,
        t[0] == '/',
    ensures
        first_piece(s + t) == first_piece(s),
        text::run_len(s, Separator::Slash) <= s.len(),
        after_piece(s + t) == if text::run_len(s, Separator::Slash) < s.len() {
            after_piece(s) + t
        } else {
            t.skip(1)
        },
{
    let by = Separator::Slash;
    lemma_run_is(s, by);
    let n = text::run_len(s, by) as int;
    let all = s + t;
    assert forall|i: int| 0 <= i < n implies !by.parts(#[trigger] all[i]) by {
        assert(all[i] == s[i]);
    }
    if n < s.len() {
        assert(all[n] == s[n]);
    } else {
        assert(all[n] == t[0]);
    }
    text::lemma_run_len(all, by, n);
    assert(all.take(n) =~= s.take(n));
    if n < s.len() {
        assert(all.skip(n + 1) =~= s.skip(n + 1) + t);
    } else {
        assert(all.skip(n + 1) =~= t.skip(1));
    }
}

proof fn lemma_first_name_before_a_slash(s: Seq<char>, t: Seq<char>)
    requires
        t.len() > 0,
        t[0] == '/',
    ensures
        from_first_name(s + t) == if from_first_name(s).len() > 0 {
            from_first_name(s) + t
        } else {
            from_first_name(t.skip(1))
        },
    decreases s.len(),
{
    if s.len() == 0 {
        assert(s + t =~= t);
        lemma_piece_before_a_slash(s, t);
        assert(first_piece(t) =~= Seq::empty());
    } else {
        lemma_piece_before_a_slash(s, t);
        if names_nothing(first_piece(s)) {
            lemma_after_piece_is_shorter(s);
            reveal_with_fuel(from_first_name, 2);
            if text::run_len(s, Separator::Slash) < s.len() {
                lemma_first_name_before_a_slash(after_piece(s), t);
            }
        }
    }
}

/// Whether a text adds no name to a path in front of it.
pub open spec fn adds_nothing(t: Seq<char>) -> bool {
    t == "/"@ || t == "/."@
}

proof fn lemma_adds_nothing(t: Seq<char>)
    requires
        adds_nothing(t),
    ensures
        t.len() > 0,
        t[0] == '/',
        from_first_name(t.skip(1)).len() == 0,
        from_first_name(t).len() == 0,
        from_first_name(Seq::empty()).len() == 0,
{
    reveal_strlit("/");
    reveal_strlit("/.");
    reveal_strlit(".");
    let by = Separator::Slash;
    let dot = "."@;
    reveal_with_fuel(from_first_name, 3);
    assert("/"@.skip(1) =~= Seq::empty());
    assert("/."@.skip(1) =~= dot);
    assert forall|i: int| 0 <= i < 1 implies !by.parts(#[trigger] dot[i]) by {}
    text::lemma_run_len(dot, by, 1);
    assert(first_piece(dot) =~= dot);
    assert(after_piece(dot) =~= Seq::empty());
    lemma_first_name_before_a_slash(Seq::empty(), t);
    assert(Seq::<char>::empty() + t =~= t);
}

proof fn lemma_base_with_nothing_added(path: Seq<char>, base: Seq<char>, t: Seq<char>)
    requires
        adds_nothing(t),
    ensures
        behind_names(path, base + t) == behind_names(path, base),
    decreases base.len(),
{
    lemma_adds_nothing(t);
    lemma_first_name_before_a_slash(base, t);
    lemma_first_name(base);
    reveal_with_fuel(behind_names, 2);
    let b = from_first_name(base);
    if b.len() > 0 {
        let p = from_first_name(path);
        lemma_piece_before_a_slash(b, t);
        lemma_after_piece_is_shorter(b);
        if p.len() > 0 && first_piece(p) == first_piece(b) {
            if text::run_len(b, Separator::Slash) < b.len() {
                lemma_base_with_nothing_added(after_piece(p), after_piece(b), t);
            }
        }
    }
}

proof fn lemma_path_with_nothing_added(path: Seq<char>, base: Seq<char>, t: Seq<char>)
    requires
        adds_nothing(t),
    ensures
        ({
            let rest = behind_names(path, base);
            let more = behind_names(path + t, base);
            ||| rest is None && more is None
            ||| rest is Some && more == Some(rest->0 + t)
            ||| rest is Some && rest->0.len() == 0 && more == Some(t.skip(1))
        }),
    decreases base.len(),
{
    lemma_adds_nothing(t);
    lemma_first_name_before_a_slash(path, t);
    lemma_first_name(base);
    reveal_with_fuel(behind_names, 2);
    let b = from_first_name(base);
    if b.len() > 0 {
        let p = from_first_name(path);
        lemma_after_piece_is_shorter(b);
        if p.len() > 0 {
            lemma_piece_before_a_slash(p, t);
            if first_piece(p) == first_piece(b) {
                if text::run_len(p, Separator::Slash) < p.len() {
                    lemma_path_with_nothing_added(after_piece(p), after_piece(b), t);
                } else {
                    lemma_first_name(after_piece(b));
                }
            }
        }
    }
}

proof fn lemma_end_with_nothing_added(s: Seq<char>, t: Seq<char>)
    requires
        adds_nothing(t),
    ensures
        to_last_name(s + t) == to_last_name(s),
        to_last_name(from_first_name(s + t)) == to_last_name(from_first_name(s)),
        to_last_name(from_first_name(t.skip(1))).len() == 0,
        to_last_name(Seq::empty()).len() == 0,
{
    reveal_strlit("/");
    reveal_strlit("/.");
    reveal_strlit(".");
    lemma_adds_nothing(t);
    lemma_first_name_before_a_slash(s, t);
    lemma_end_of_added(s, t);
    lemma_end_of_added(from_first_name(s), t);
}

proof fn lemma_end_of_added(s: Seq<char>, t: Seq<char>)
    requires
        adds_nothing(t),
    ensures
        to_last_name(s + t) == to_last_name(s),
{
    reveal_strlit("/");
    reveal_strlit("/.");
    reveal_strlit(".");
    let all = s + t;
    if t == "/"@ {
        lemma_last_piece_len_is(all, 0);
        assert(all.skip(all.len() as int) =~= Seq::empty());
        assert(all.take(all.len() - 1) =~= s);
    } else {
        lemma_last_piece_len_is(all, 1);
        assert(all.skip(all.len() - 1) =~= "."@);
        assert(all.take(all.len() - 2) =~= s);
    }
}

/// A slash at the end of a path, or of the home directory, does not count, nor
/// does the current directory behind it.
pub proof fn law_ends_that_name_nothing_do_not_count(path: Seq<char>, home: Seq<char>, t: Seq<char>)
    requires
        path.len() > 0,
        home.len() > 0,
        t == "/"@ || t == "/."@,
    ensures
        below(path + t, home) == below(path, home),
        below(path, home + t) == below(path, home),
        below(path + t, Seq::empty()) == below(path, Seq::empty()),
        shown_path(path, Some(home + t)) == shown_path(path, Some(home)),
        below(path, home) is Some ==> shown_path(path + t, Some(home)) == shown_path(
            path,
            Some(home),
        ),
{
    lemma_adds_nothing(t);
    lemma_piece_before_a_slash(path, t);
    lemma_piece_before_a_slash(home, t);
    let n = anchor_len(path);
    let m = anchor_len(home);
    assert((path + t)[0] == path[0]);
    assert((home + t)[0] == home[0]);
    assert((path + t).skip(n) =~= path.skip(n) + t);
    assert((home + t).skip(m) =~= home.skip(m) + t);
    assert((path + t).take(n) =~= path.take(n));
    lemma_path_with_nothing_added(path.skip(n), home.skip(m), t);
    lemma_base_with_nothing_added(path.skip(n), home.skip(m), t);
    lemma_end_with_nothing_added(path.skip(n), t);
    match behind_names(path.skip(n), home.skip(m)) {
        Some(rest) => {
            lemma_end_with_nothing_added(rest, t);
            if rest.len() == 0 {
                assert(rest =~= Seq::empty());
            }
        },
        None => {},
    }
}

proof fn lemma_front_that_names_nothing(s: Seq<char>)
    ensures
        from_first_name(seq!['/'] + s) == from_first_name(s),
        from_first_name("./"@ + s) == from_first_name(s),
{
    reveal_strlit("./");
    reveal_strlit(".");
    let one = seq!['/'] + s;
    assert(one.skip(1) =~= s);
    lemma_first_name_before_a_slash(Seq::empty(), one);
    assert(Seq::<char>::empty() + one =~= one);
    lemma_first_name_before_a_slash("."@, one);
    assert("."@ + one =~= "./"@ + s);
    lemma_adds_nothing("/."@);
    reveal_strlit("/.");
    assert("/."@.skip(1) =~= "."@);
}

/// Further slashes at the root of a path, or of the home directory, do not
/// count, nor does the current directory there.
pub proof fn law_fronts_that_name_nothing_do_not_count(path: Seq<char>, home: Seq<char>)
    ensures
        below("//"@ + path, "/"@ + home) == below("/"@ + path, "/"@ + home),
        below("/./"@ + path, "/"@ + home) == below("/"@ + path, "/"@ + home),
        below("/"@ + path, "//"@ + home) == below("/"@ + path, "/"@ + home),
        below("/"@ + path, "/./"@ + home) == below("/"@ + path, "/"@ + home),
{
    reveal_strlit("/");
    reveal_strlit("//");
    reveal_strlit("/./");
    reveal_strlit("./");
    lemma_front_that_names_nothing(path);
    lemma_front_that_names_nothing(home);
    assert(("/"@ + path).skip(1) =~= path);
    assert(("/"@ + home).skip(1) =~= home);
    assert(("//"@ + path).skip(1) =~= seq!['/'] + path);
    assert(("//"@ + home).skip(1) =~= seq!['/'] + home);
    assert(("/./"@ + path).skip(1) =~= "./"@ + path);
    assert(("/./"@ + home).skip(1) =~= "./"@ + home);
}

/// A path that starts at the root is not below a directory that does not, nor
/// the other way round, nor is one that starts in the current directory below
/// a plain name.
pub proof fn law_paths_start_where_their_directories_do(path: Seq<char>, home: Seq<char>)
    requires
        path.len() > 0 ==> path[0] != '/' && path[0] != '.',
        home.len() > 0,
        home[0] != '/',
        home[0] != '.',
    ensures
        below("/"@ + path, home) is None,
        below(path, "/"@ + home) is None,
        below("./"@ + path, home) is None,
        below(path, "./"@ + home) is None,
        below("/"@ + path, "./"@ + home) is None,
        below("./"@ + path, "/"@ + home) is None,
        below("./"@ + path, "./"@ + home) == below("/"@ + path, "/"@ + home),
{
    reveal_strlit("/");
    reveal_strlit("./");
    reveal_strlit(".");
    let by = Separator::Slash;
    let p = "./"@ + path;
    let h = "./"@ + home;
    text::lemma_run_len(p, by, 1);
    text::lemma_run_len(h, by, 1);
    assert(p.take(1) =~= "."@);
    assert(h.take(1) =~= "."@);
    assert(p.skip(1) =~= seq!['/'] + path);
    assert(h.skip(1) =~= seq!['/'] + home);
    assert(("/"@ + path).skip(1) =~= path);
    assert(("/"@ + home).skip(1) =~= home);
    lemma_front_that_names_nothing(path);
    lemma_front_that_names_nothing(home);
    assert(("/"@ + path)[0] == '/' && ("/"@ + home)[0] == '/');
    lemma_run_is(path, by);
    lemma_run_is(home, by);
    if path.len() > 0 && first_piece(path) == "."@ {
        assert(first_piece(path)[0] == path[0]);
    }
    if first_piece(home) == "."@ {
        assert(first_piece(home)[0] == home[0]);
    }
}

/// Below an empty home directory every path is shown, whole.
pub proof fn law_an_empty_home_holds_every_path(path: Seq<Seq<char>>)
    requires
        forall|i: int| 0 <= i < path.len() ==> is_name(#[trigger] path[i]),
    ensures
        shown_path(path_of(path), Some(Seq::empty())) == "~/"@ + path_of(path),
        shown_path(text::joined(path, "/"@), Some(Seq::empty())) == "~/"@ + text::joined(
            path,
            "/"@,
        ),
{
    reveal_strlit("/");
    reveal_strlit(".");
    let names = text::joined(path, "/"@);
    let p = path_of(path);
    assert(p[0] == '/');
    assert(p.skip(1) =~= names);
    assert(p.take(1) =~= "/"@);
    lemma_ends_in_its_last_name(path);
    assert(names.skip(0) =~= names);
    assert(names.take(0) =~= Seq::empty());
    assert(Seq::<char>::empty() + names =~= names);
    if path.len() > 0 {
        lemma_pieces(path);
        assert(is_name(path[0]));
        assert(names[0] == first_piece(names)[0]);
        assert(path[0].contains(path[0][0]));
    } else {
        assert(names =~= Seq::empty());
    }
}

proof fn lemma_behind_itself(names: Seq<Seq<char>>, rest: Seq<char>)
    requires
        names.len() > 0,
        forall|i: int| 0 <= i < names.len() ==> is_name(#[trigger] names[i]),
    ensures
        behind_names(text::joined(names, "/"@) + "/"@ + rest, text::joined(names, "/"@)) == Some(
            rest,
        ),
    decreases names.len(),
{
    reveal_strlit("/");
    let all = text::joined(names, "/"@);
    let t = "/"@ + rest;
    assert(all + "/"@ + rest =~= all + t);
    assert(t.skip(1) =~= rest);
    lemma_pieces(names);
    lemma_piece_before_a_slash(all, t);
    lemma_first_name_before_a_slash(all, t);
    let more = names.drop_first();
    if names.len() > 1 {
        assert forall|i: int| 0 <= i < more.len() implies is_name(#[trigger] more[i]) by {
            assert(more[i] == names[i + 1]);
        }
        lemma_behind_itself(more, rest);
        lemma_joined_front(names);
        assert(is_name(names[0]));
        assert(first_piece(all).len() < all.len());
        assert(after_piece(all) + t =~= text::joined(more, "/"@) + "/"@ + rest);
    } else {
        assert(more =~= Seq::empty());
        assert(after_piece(all) =~= Seq::empty());
        lemma_name_has_no_slash(names[0]);
        assert(all =~= names[0]);
        lemma_adds_nothing("/"@);
        reveal_with_fuel(behind_names, 2);
    }
}

/// Below the home directory a path is shown just as it is written there.
pub proof fn law_what_is_below_home_is_shown_as_written(
    home: Seq<Seq<char>>,
    first: Seq<char>,
    middle: Seq<char>,
    last: Seq<char>,
)
    requires
        home.len() > 0,
        forall|i: int| 0 <= i < home.len() ==> is_name(#[trigger] home[i]),
        is_name(first),
        is_name(last),
    ensures
        shown_path(
            path_of(home) + "/"@ + first + "/"@ + middle + "/"@ + last,
            Some(path_of(home)),
        ) == "~/"@ + first + "/"@ + middle + "/"@ + last,
{
    reveal_strlit("/");
    let rest = first + "/"@ + middle + "/"@ + last;
    let names = text::joined(home, "/"@);
    let p = path_of(home) + "/"@ + first + "/"@ + middle + "/"@ + last;
    let h = path_of(home);
    assert(p[0] == '/' && h[0] == '/');
    assert(p.skip(1) =~= names + "/"@ + rest);
    assert(h.skip(1) =~= names);
    lemma_behind_itself(home, rest);
    let tail = "/"@ + middle + "/"@ + last;
    assert(rest =~= first + tail);
    lemma_name_has_no_slash(first);
    lemma_piece_before_a_slash(first, tail);
    assert(first.take(first.len() as int) =~= first);
    assert(from_first_name(rest) == rest);
    let n = last.len() as int;
    assert forall|i: int| rest.len() - n <= i < rest.len() implies #[trigger] rest[i] != '/' by {
        assert(rest[i] == last[i - (rest.len() - n)]);
        assert(last.contains(rest[i]));
    }
    lemma_last_piece_len_is(rest, n);
    assert(rest.skip(rest.len() - n) =~= last);
    assert("~/"@ + rest =~= "~/"@ + first + "/"@ + middle + "/"@ + last);
}

} // verus!
