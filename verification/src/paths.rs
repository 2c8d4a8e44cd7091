//! Paths as text, those of Unix and those of Windows.

use vstd::prelude::*;

use crate::platform::Platform;
use crate::text::{
    chars_of, join, joined, lemma_pieces_append, lemma_pieces_hold_no_separator, lemma_pieces_plain,
    lower, lower_text, lowered, pieces, same_text,
    split_on, splitting_undoes_joining, texts,
};

verus! {

/// A piece between slashes that names something: not empty and not `.`.
pub open spec fn is_part(piece: Seq<char>) -> bool {
    piece.len() > 0 && piece != seq!['.']
}

/// The step to the parent directory.
pub open spec fn parent_step() -> Seq<char> {
    seq!['.', '.']
}

/// The parts of a path, without empty ones and `.`.
pub open spec fn parts_of(path: Seq<char>) -> Seq<Seq<char>> {
    pieces(path, '/').filter(|piece: Seq<char>| is_part(piece))
}

/// Whether the path starts at the root.
pub open spec fn absolute(path: Seq<char>) -> bool {
    path.len() > 0 && path[0] == '/'
}

/// The parts of the place that a walk from the root along the parts ends in.
/// A step to the parent stays at the root there.
pub open spec fn walked(parts: Seq<Seq<char>>) -> Seq<Seq<char>>
    decreases parts.len(),
{
    if parts.len() == 0 {
        Seq::empty()
    } else {
        let place = walked(parts.drop_last());
        if parts.last() == parent_step() {
            if place.len() > 0 {
                place.drop_last()
            } else {
                place
            }
        } else {
            place.push(parts.last())
        }
    }
}

/// The absolute path with the given parts.
pub open spec fn rooted(parts: Seq<Seq<char>>) -> Seq<char> {
    seq!['/'] + joined(parts, seq!['/'])
}

/// The final part of the path, unless that is a step to the parent.
pub open spec fn base_name(path: Seq<char>) -> Option<Seq<char>> {
    let parts = parts_of(path);
    if parts.len() > 0 && parts.last() != parent_step() {
        Some(parts.last())
    } else {
        None
    }
}

/// The path `rel` as seen from `base`.
pub open spec fn seen_from(base: Seq<char>, rel: Seq<char>) -> Seq<char> {
    if absolute(rel) {
        rel
    } else if base.len() > 0 && base.last() != '/' {
        base.push('/') + rel
    } else {
        base + rel
    }
}

/// Whether the path starts at the root.
pub fn is_absolute(path: &str) -> (r: bool)
    ensures
        r == absolute(path@),
{
    path.unicode_len() > 0 && path.get_char(0) == '/'
}

fn is_part_text(piece: &str) -> (r: bool)
    ensures
        r == is_part(piece@),
{
    let chars = chars_of(piece);
    if chars.len() == 0 {
        return false;
    }
    if chars.len() == 1 && chars[0] == '.' {
        assert(piece@ =~= seq!['.']);
        return false;
    }
    true
}

/// Whether the part is a step to the parent directory.
pub fn is_parent_step(piece: &str) -> (r: bool)
    ensures
        r == (piece@ == parent_step()),
{
    let chars = chars_of(piece);
    if chars.len() == 2 && chars[0] == '.' && chars[1] == '.' {
        assert(piece@ =~= parent_step());
        true
    } else {
        false
    }
}

/// The parts of a path.
pub fn path_parts(path: &str) -> (r: Vec<String>)
    ensures
        texts(r@) == parts_of(path@),
{
    let raw = split_on(path, '/');
    let ghost all = pieces(path@, '/');
    let ghost pred = |piece: Seq<char>| is_part(piece);
    let mut out: Vec<String> = Vec::new();
    let mut i: usize = 0;
    proof {
        reveal(Seq::filter);
        assert(texts(out@) =~= all.take(0).filter(pred));
    }
    while i < raw.len()
        invariant
            i <= raw@.len(),
            texts(raw@) == all,
            pred == (|piece: Seq<char>| is_part(piece)),
            texts(out@) == all.take(i as int).filter(pred),
        decreases raw@.len() - i,
    {
        proof {
            reveal(Seq::filter);
            assert(all.take(i + 1).drop_last() =~= all.take(i as int));
            assert(all[i as int] == raw@[i as int]@);
        }
        if is_part_text(raw[i].as_str()) {
            let ghost before = out@;
            out.push(raw[i].clone());
            assert(texts(out@) =~= texts(before).push(raw@[i as int]@));
        }
        i = i + 1;
    }
    assert(all.take(i as int) =~= all);
    out
}

/// The parts of the place that an absolute path leads to.
pub fn walk(parts: &Vec<String>) -> (r: Vec<String>)
    ensures
        texts(r@) == walked(texts(parts@)),
{
    let ghost all = texts(parts@);
    let mut place: Vec<String> = Vec::new();
    let mut i: usize = 0;
    assert(texts(place@) =~= Seq::<Seq<char>>::empty());
    assert(all.take(0).len() == 0);
    while i < parts.len()
        invariant
            i <= parts@.len(),
            all == texts(parts@),
            texts(place@) == walked(all.take(i as int)),
        decreases parts@.len() - i,
    {
        let ghost before = place@;
        assert(all.take(i + 1).drop_last() =~= all.take(i as int));
        assert(all[i as int] == parts@[i as int]@);
        if is_parent_step(parts[i].as_str()) {
            let _ = place.pop();
            proof {
                if before.len() > 0 {
                    assert(texts(place@) =~= texts(before).drop_last());
                } else {
                    assert(texts(place@) =~= texts(before));
                }
            }
        } else {
            place.push(parts[i].clone());
            assert(texts(place@) =~= texts(before).push(parts@[i as int]@));
        }
        i = i + 1;
    }
    assert(all.take(i as int) =~= all);
    place
}

/// The absolute path with the given parts.
pub fn rooted_path(parts: &Vec<String>) -> (r: String)
    ensures
        r@ == rooted(texts(parts@)),
{
    let slash = slash_text();
    let mut out = slash_text();
    let tail = join(parts, slash.as_str());
    out.append(tail.as_str());
    out
}

fn slash_text() -> (r: String)
    ensures
        r@ == seq!['/'],
{
    let mut slash = String::new();
    slash.push('/');
    assert(slash@ =~= seq!['/']);
    slash
}

/// The final part of the path, unless that is a step to the parent.
pub fn file_name(path: &str) -> (r: Option<String>)
    ensures
        crate::text::opt_text(r) == base_name(path@),
{
    let mut parts = path_parts(path);
    let ghost all = texts(parts@);
    match parts.pop() {
        Some(last) => {
            assert(last@ == all.last());
            if is_parent_step(last.as_str()) {
                None
            } else {
                Some(last)
            }
        },
        None => None,
    }
}

/// The path `rel` as seen from `base`.
pub fn join_path(base: &str, rel: &str) -> (r: String)
    ensures
        r@ == seen_from(base@, rel@),
{
    if is_absolute(rel) {
        return rel.to_owned();
    }
    let n = base.unicode_len();
    let mut out = base.to_owned();
    if n > 0 && base.get_char(n - 1) != '/' {
        out.push('/');
    }
    out.append(rel);
    out
}

/// Whether the character separates the parts of a path.
pub open spec fn separates(c: char, platform: Platform) -> bool {
    c == '/' || (platform == Platform::Windows && c == '\\')
}

/// Whether the character separates the parts of a path.
pub fn is_separator(c: char, platform: Platform) -> (r: bool)
    ensures
        r == separates(c, platform),
{
    c == '/' || (platform == Platform::Windows && c == '\\')
}

/// Whether a path of Windows starts with the letter of a drive.
pub open spec fn has_drive(path: Seq<char>) -> bool {
    path.len() >= 2 && path[1] == ':' && ('a' <= path[0] <= 'z' || 'A' <= path[0] <= 'Z')
}

/// Whether a path of Windows starts with two separators.
pub open spec fn has_host(path: Seq<char>) -> bool {
    path.len() >= 2 && separates(path[0], Platform::Windows) && separates(
        path[1],
        Platform::Windows,
    )
}

/// The first separator at a position or behind it, or else the end.
pub open spec fn next_separator(path: Seq<char>, from: int) -> int
    decreases path.len() - from,
{
    if from >= path.len() || separates(path[from], Platform::Windows) {
        from
    } else {
        next_separator(path, from + 1)
    }
}

/// How much of a path of Windows names a drive, or a computer and what it
/// shares.
pub open spec fn volume_end(path: Seq<char>) -> int {
    if has_drive(path) {
        2
    } else if has_host(path) {
        let host_end = next_separator(path, 2);
        let share_end = next_separator(path, host_end + 1);
        if 2 < host_end < path.len() && host_end + 1 < share_end {
            share_end
        } else {
            0
        }
    } else {
        0
    }
}

/// The path `rel` as seen from `base`. On Windows a path with a volume stands
/// for itself, and one from the root stays on the volume of the base.
pub open spec fn seen_on(base: Seq<char>, rel: Seq<char>, platform: Platform) -> Seq<char> {
    if platform == Platform::Unix {
        seen_from(base, rel)
    } else if volume_end(rel) > 0 {
        rel
    } else if rel.len() > 0 && separates(rel[0], platform) {
        base.take(volume_end(base)) + rel
    } else if base.len() > 0 && !separates(base.last(), platform) && !(base.len() == 2 && has_drive(
        base,
    )) {
        base.push('\\') + rel
    } else {
        base + rel
    }
}

fn starts_with_drive(path: &str) -> (r: bool)
    ensures
        r == has_drive(path@),
{
    if path.unicode_len() < 2 || path.get_char(1) != ':' {
        return false;
    }
    let c = path.get_char(0);
    ('a' <= c && c <= 'z') || ('A' <= c && c <= 'Z')
}

fn starts_with_host(path: &str) -> (r: bool)
    ensures
        r == has_host(path@),
{
    path.unicode_len() >= 2 && is_separator(path.get_char(0), Platform::Windows) && is_separator(
        path.get_char(1),
        Platform::Windows,
    )
}

fn find_separator(path: &str, from: usize) -> (r: usize)
    requires
        from <= path@.len(),
    ensures
        r == next_separator(path@, from as int),
        from <= r <= path@.len(),
{
    let n: usize = path.unicode_len();
    let mut i: usize = from;
    while i < n && !is_separator(path.get_char(i), Platform::Windows)
        invariant
            n == path@.len(),
            from <= i <= n,
            next_separator(path@, from as int) == next_separator(path@, i as int),
        decreases n - i,
    {
        i = i + 1;
    }
    i
}

/// How much of a path of Windows names a drive, or a computer and what it
/// shares.
pub fn find_volume_end(path: &str) -> (r: usize)
    ensures
        r == volume_end(path@),
        r <= path@.len(),
{
    if starts_with_drive(path) {
        2
    } else if starts_with_host(path) {
        let host_end: usize = find_separator(path, 2);
        if host_end == 2 || host_end == path.unicode_len() {
            return 0;
        }
        let share_end: usize = find_separator(path, host_end + 1);
        if share_end > host_end + 1 {
            share_end
        } else {
            0
        }
    } else {
        0
    }
}

/// The path `rel` as seen from `base` on a platform.
pub fn join_path_on(base: &str, rel: &str, platform: Platform) -> (r: String)
    ensures
        r@ == seen_on(base@, rel@, platform),
{
    if platform == Platform::Unix {
        return join_path(base, rel);
    }
    if find_volume_end(rel) > 0 {
        return rel.to_owned();
    }
    if rel.unicode_len() > 0 && is_separator(rel.get_char(0), platform) {
        let mut out = base.substring_char(0, find_volume_end(base)).to_owned();
        out.append(rel);
        assert(base@.subrange(0, volume_end(base@)) =~= base@.take(volume_end(base@)));
        return out;
    }
    let n: usize = base.unicode_len();
    let mut out = base.to_owned();
    if n > 0 && !is_separator(base.get_char(n - 1), platform) && !(n == 2 && starts_with_drive(
        base,
    )) {
        out.push('\\');
    }
    out.append(rel);
    out
}

/// The text with each backslash turned into a slash.
pub open spec fn slashed(path: Seq<char>) -> Seq<char> {
    path.map_values(
        |c: char|
            if c == '\\' {
                '/'
            } else {
                c
            },
    )
}

/// The final part of the path, unless that is a step to the parent. On Windows
/// a backslash separates parts too, and the volume is no part.
pub open spec fn base_name_on(path: Seq<char>, platform: Platform) -> Option<Seq<char>> {
    if platform == Platform::Unix {
        base_name(path)
    } else {
        base_name(slashed(path.skip(volume_end(path))))
    }
}

fn slashed_text(path: &str) -> (r: String)
    ensures
        r@ == slashed(path@),
{
    let n: usize = path.unicode_len();
    let mut out = String::new();
    let mut i: usize = 0;
    while i < n
        invariant
            n == path@.len(),
            i <= n,
            out@ == slashed(path@).take(i as int),
        decreases n - i,
    {
        let c = path.get_char(i);
        out.push(
            if c == '\\' {
                '/'
            } else {
                c
            },
        );
        assert(slashed(path@).take(i + 1) =~= slashed(path@).take(i as int).push(
            slashed(path@)[i as int],
        ));
        i = i + 1;
    }
    assert(slashed(path@).take(i as int) =~= slashed(path@));
    out
}

/// The final part of the path on a platform, unless that is a step to the
/// parent.
pub fn file_name_on(path: &str, platform: Platform) -> (r: Option<String>)
    ensures
        crate::text::opt_text(r) == base_name_on(path@, platform),
{
    if platform == Platform::Unix {
        return file_name(path);
    }
    let rest = path.substring_char(find_volume_end(path), path.unicode_len());
    assert(rest@ =~= path@.skip(volume_end(path@)));
    let text = slashed_text(rest);
    file_name(text.as_str())
}

/// The given parts are the first ones of the path's parts.
pub open spec fn lies_under(parts: Seq<Seq<char>>, top: Seq<Seq<char>>) -> bool {
    top.is_prefix_of(parts)
}

/// Whether the first parts are the given ones.
pub fn parts_start_with(parts: &Vec<String>, top: &Vec<String>) -> (r: bool)
    ensures
        r == lies_under(texts(parts@), texts(top@)),
{
    if top.len() > parts.len() {
        return false;
    }
    let ghost x = texts(parts@);
    let ghost y = texts(top@);
    let mut i: usize = 0;
    while i < top.len()
        invariant
            i <= top@.len() <= parts@.len(),
            x == texts(parts@),
            y == texts(top@),
            forall|k: int| 0 <= k < i ==> x[k] == y[k],
        decreases top@.len() - i,
    {
        if !same_text(parts[i].as_str(), top[i].as_str()) {
            assert(x.subrange(0, y.len() as int)[i as int] != y[i as int]);
            return false;
        }
        i = i + 1;
    }
    assert(x.subrange(0, y.len() as int) =~= y);
    true
}

/// The first piece at or after the position that names something.
pub open spec fn next_part(raw: Seq<Seq<char>>, from: int) -> int
    decreases raw.len() - from,
{
    if from >= raw.len() || is_part(raw[from]) {
        from
    } else {
        next_part(raw, from + 1)
    }
}

/// The position after the last piece before `to` that names something, but
/// not before `from`.
pub open spec fn last_part_end(raw: Seq<Seq<char>>, from: int, to: int) -> int
    decreases to - from,
{
    if to <= from || is_part(raw[to - 1]) {
        to
    } else {
        last_part_end(raw, from, to - 1)
    }
}

/// The position after the first `count` pieces that name something.
pub open spec fn after_parts(raw: Seq<Seq<char>>, from: int, count: nat) -> int
    decreases count,
{
    if count == 0 {
        from
    } else {
        after_parts(raw, next_part(raw, from) + 1, (count - 1) as nat)
    }
}

/// What is left of the path behind its first `count` parts, without slashes
/// and `.` at either end.
pub open spec fn rest_after(path: Seq<char>, count: nat) -> Seq<char> {
    let raw = pieces(path, '/');
    let from = next_part(raw, after_parts(raw, 0, count));
    let to = last_part_end(raw, from, raw.len() as int);
    if from < to {
        joined(raw.subrange(from, to), seq!['/'])
    } else {
        Seq::empty()
    }
}

/// The part of an absolute path below a directory.
pub open spec fn below(path: Seq<char>, dir: Seq<char>) -> Option<Seq<char>> {
    if absolute(dir) && lies_under(parts_of(path), parts_of(dir)) {
        Some(rest_after(path, parts_of(dir).len()))
    } else {
        None
    }
}

fn next_part_at(raw: &Vec<String>, from: usize) -> (r: usize)
    requires
        from <= raw@.len(),
    ensures
        r == next_part(texts(raw@), from as int),
        from <= r <= raw@.len(),
{
    let mut i: usize = from;
    while i < raw.len() && !is_part_text(raw[i].as_str())
        invariant
            from <= i <= raw@.len(),
            next_part(texts(raw@), from as int) == next_part(texts(raw@), i as int),
        decreases raw@.len() - i,
    {
        assert(texts(raw@)[i as int] == raw@[i as int]@);
        i = i + 1;
    }
    if i < raw.len() {
        assert(texts(raw@)[i as int] == raw@[i as int]@);
    }
    i
}

/// The parts of the pieces before a position.
pub proof fn lemma_parts_left(raw: Seq<Seq<char>>, from: int)
    requires
        0 <= from <= raw.len(),
    ensures
        raw.skip(from).filter(|p: Seq<char>| is_part(p)).len() == 0 ==> next_part(raw, from)
            == raw.len(),
        raw.skip(from).filter(|p: Seq<char>| is_part(p)).len() > 0 ==> next_part(raw, from)
            < raw.len() && raw.skip(next_part(raw, from) + 1).filter(|p: Seq<char>| is_part(p)).len()
            == raw.skip(from).filter(|p: Seq<char>| is_part(p)).len() - 1,
        from <= next_part(raw, from) <= raw.len(),
    decreases raw.len() - from,
{
    let pred = |p: Seq<char>| is_part(p);
    if from == raw.len() {
        reveal(Seq::filter);
        assert(raw.skip(from).len() == 0);
    } else {
        let tail = raw.skip(from + 1);
        assert(raw.skip(from) =~= seq![raw[from]] + tail);
        Seq::filter_distributes_over_add(seq![raw[from]], tail, pred);
        let one = seq![raw[from]];
        assert(one.filter(pred).len() == if is_part(raw[from]) {
            1int
        } else {
            0int
        }) by {
            reveal(Seq::filter);
            assert(one.drop_last() =~= Seq::<Seq<char>>::empty());
            assert(one.drop_last().filter(pred).len() == 0);
        }
        lemma_parts_left(raw, from + 1);
    }
}

/// The part of an absolute path below a directory, if it lies there.
pub fn path_below(path: &str, dir: &str) -> (r: Option<String>)
    ensures
        crate::text::opt_text(r) == below(path@, dir@),
{
    if !is_absolute(dir) {
        return None;
    }
    let parts = path_parts(path);
    let top = path_parts(dir);
    if !parts_start_with(&parts, &top) {
        return None;
    }
    let raw = split_on(path, '/');
    let ghost all = pieces(path@, '/');
    let mut from: usize = 0;
    let mut count: usize = 0;
    assert(all.skip(0) =~= all);
    while count < top.len()
        invariant
            count <= top@.len() <= parts@.len(),
            texts(raw@) == all,
            from <= all.len(),
            all.skip(from as int).filter(|p: Seq<char>| is_part(p)).len() == parts@.len() - count,
            after_parts(all, 0, top@.len() as nat) == after_parts(
                all,
                from as int,
                (top@.len() - count) as nat,
            ),
        decreases top@.len() - count,
    {
        proof {
            lemma_parts_left(all, from as int);
        }
        from = next_part_at(&raw, from) + 1;
        count = count + 1;
    }
    from = next_part_at(&raw, from);
    let mut to: usize = raw.len();
    while to > from && !is_part_text(raw[to - 1].as_str())
        invariant
            from <= to <= raw@.len(),
            texts(raw@) == all,
            last_part_end(all, from as int, all.len() as int) == last_part_end(
                all,
                from as int,
                to as int,
            ),
        decreases to,
    {
        assert(all[to - 1] == raw@[to - 1]@);
        to = to - 1;
    }
    if to > from {
        assert(all[to - 1] == raw@[to - 1]@);
    }
    if from >= to {
        return Some(String::new());
    }
    let mut kept: Vec<String> = Vec::new();
    let mut i: usize = from;
    while i < to
        invariant
            from <= i <= to <= raw@.len(),
            texts(raw@) == all,
            texts(kept@) == all.subrange(from as int, i as int),
        decreases to - i,
    {
        let ghost before = kept@;
        kept.push(raw[i].clone());
        assert(all[i as int] == raw@[i as int]@);
        assert(texts(kept@) =~= texts(before).push(all[i as int]));
        assert(all.subrange(from as int, i + 1) =~= all.subrange(from as int, i as int).push(
            all[i as int],
        ));
        i = i + 1;
    }
    let slash = slash_text();
    Some(join(&kept, slash.as_str()))
}

/// A walk from the root passes through named directories only.
pub proof fn lemma_walked_has_no_steps(parts: Seq<Seq<char>>)
    requires
        forall|i: int| 0 <= i < parts.len() ==> is_part(#[trigger] parts[i]) && !parts[i].contains('/'),
    ensures
        forall|i: int|
            0 <= i < walked(parts).len() ==> is_part(#[trigger] walked(parts)[i])
                && !walked(parts)[i].contains('/') && walked(parts)[i] != parent_step(),
    decreases parts.len(),
{
    if parts.len() > 0 {
        let head = parts.drop_last();
        assert forall|i: int| 0 <= i < head.len() implies is_part(#[trigger] head[i])
            && !head[i].contains('/') by {
            assert(head[i] == parts[i]);
        }
        lemma_walked_has_no_steps(head);
        assert(is_part(parts[parts.len() - 1]));
        let place = walked(head);
        let result = walked(parts);
        assert forall|i: int| 0 <= i < result.len() implies is_part(#[trigger] result[i])
            && !result[i].contains('/') && result[i] != parent_step() by {
            if i < place.len() {
                assert(result[i] == place[i]);
            }
        }
    }
}

/// A walk without steps to the parent ends where its parts say.
pub proof fn lemma_walked_plain(parts: Seq<Seq<char>>)
    requires
        forall|i: int| 0 <= i < parts.len() ==> #[trigger] parts[i] != parent_step(),
    ensures
        walked(parts) == parts,
    decreases parts.len(),
{
    if parts.len() > 0 {
        let head = parts.drop_last();
        assert forall|i: int| 0 <= i < head.len() implies #[trigger] head[i] != parent_step() by {
            assert(head[i] == parts[i]);
        }
        lemma_walked_plain(head);
        assert(parts[parts.len() - 1] != parent_step());
        assert(walked(parts) =~= parts);
    } else {
        assert(walked(parts) =~= parts);
    }
}

proof fn lemma_filter_keeps_all(list: Seq<Seq<char>>)
    requires
        forall|i: int| 0 <= i < list.len() ==> is_part(#[trigger] list[i]),
    ensures
        list.filter(|p: Seq<char>| is_part(p)) == list,
    decreases list.len(),
{
    reveal(Seq::filter);
    if list.len() > 0 {
        let head = list.drop_last();
        assert forall|i: int| 0 <= i < head.len() implies is_part(#[trigger] head[i]) by {
            assert(head[i] == list[i]);
        }
        lemma_filter_keeps_all(head);
        assert(is_part(list[list.len() - 1]));
        assert(head.push(list.last()) =~= list);
    } else {
        assert(list.filter(|p: Seq<char>| is_part(p)) =~= list);
    }
}

/// The parts of a path name something and hold no slash.
pub proof fn lemma_parts_of(path: Seq<char>)
    ensures
        forall|i: int|
            0 <= i < parts_of(path).len() ==> is_part(#[trigger] parts_of(path)[i])
                && !parts_of(path)[i].contains('/'),
{
    let raw = pieces(path, '/');
    let pred = |p: Seq<char>| is_part(p);
    lemma_pieces_hold_no_separator(path, '/');
    assert forall|i: int| 0 <= i < parts_of(path).len() implies is_part(#[trigger] parts_of(path)[i])
        && !parts_of(path)[i].contains('/') by {
        raw.lemma_filter_pred(pred, i);
        raw.lemma_filter_contains_rev(pred, parts_of(path)[i]);
        let k = choose|k: int| 0 <= k < raw.len() && raw[k] == parts_of(path)[i];
        assert(!raw[k].contains('/'));
    }
}

/// Cleaning a path up a second time changes nothing: the place that a cleaned
/// path leads to is the one that the path led to.
pub proof fn cleaning_is_idempotent(path: Seq<char>)
    ensures
        walked(parts_of(rooted(walked(parts_of(path))))) == walked(parts_of(path)),
{
    lemma_rooted_parts(path);
    lemma_parts_of(path);
    lemma_walked_has_no_steps(parts_of(path));
    lemma_walked_plain(walked(parts_of(path)));
}

/// The parts of a cleaned path are those of the place that it leads to.
pub proof fn lemma_rooted_parts(path: Seq<char>)
    ensures
        parts_of(rooted(walked(parts_of(path)))) == walked(parts_of(path)),
{
    lemma_parts_of(path);
    lemma_walked_has_no_steps(parts_of(path));
    let place = walked(parts_of(path));
    let full = seq![Seq::<char>::empty()] + place;
    if place.len() == 0 {
        let root = rooted(place);
        assert(root =~= seq!['/']);
        assert(root.drop_last() =~= Seq::<char>::empty());
        reveal_with_fuel(pieces, 3);
        assert(pieces(root, '/') =~= seq![Seq::<char>::empty(), Seq::<char>::empty()]);
        reveal_with_fuel(Seq::filter, 3);
        let raw = pieces(root, '/');
        assert(raw.drop_last() =~= seq![Seq::<char>::empty()]);
        assert(raw.drop_last().drop_last() =~= Seq::<Seq<char>>::empty());
        assert(parts_of(root) =~= place);
    } else {
        lemma_joined_prepend(place);
        assert(rooted(place) =~= joined(full, seq!['/']));
        assert forall|i: int| 0 <= i < full.len() implies !(#[trigger] full[i]).contains('/') by {
            if i > 0 {
                assert(full[i] == place[i - 1]);
            }
        }
        splitting_undoes_joining(full, '/');
        let pred = |p: Seq<char>| is_part(p);
        Seq::filter_distributes_over_add(seq![Seq::<char>::empty()], place, pred);
        lemma_filter_keeps_all(place);
        let one = seq![Seq::<char>::empty()];
        assert(one.filter(pred) =~= Seq::<Seq<char>>::empty()) by {
            reveal_with_fuel(Seq::filter, 2);
            assert(one.drop_last() =~= Seq::<Seq<char>>::empty());
        }
        assert(parts_of(rooted(place)) =~= place);
    }
}

proof fn lemma_joined_prepend(parts: Seq<Seq<char>>)
    requires
        parts.len() >= 1,
    ensures
        joined(seq![Seq::<char>::empty()] + parts, seq!['/']) == seq!['/'] + joined(parts, seq!['/']),
    decreases parts.len(),
{
    let full = seq![Seq::<char>::empty()] + parts;
    if parts.len() == 1 {
        assert(full.drop_last() =~= seq![Seq::<char>::empty()]);
        assert(joined(full.drop_last(), seq!['/']) =~= Seq::<char>::empty());
        assert(joined(full, seq!['/']) =~= seq!['/'] + joined(parts, seq!['/']));
    } else {
        lemma_joined_prepend(parts.drop_last());
        assert(full.drop_last() =~= seq![Seq::<char>::empty()] + parts.drop_last());
        assert(full.last() == parts.last());
        assert(joined(full, seq!['/']) =~= seq!['/'] + joined(parts, seq!['/']));
    }
}

/// An absolute path without slashes and `.` at its end.
pub open spec fn without_tail(path: Seq<char>) -> Seq<char> {
    let raw = pieces(path, '/');
    let to = last_part_end(raw, 1, raw.len() as int);
    if to > 1 {
        joined(raw.take(to), seq!['/'])
    } else {
        seq!['/']
    }
}

/// An absolute path without slashes and `.` at its end.
pub fn trim_path_tail(path: &str) -> (r: String)
    requires
        absolute(path@),
    ensures
        r@ == without_tail(path@),
{
    let raw = split_on(path, '/');
    let ghost all = pieces(path@, '/');
    let mut to: usize = raw.len();
    while to > 1 && !is_part_text(raw[to - 1].as_str())
        invariant
            1 <= to <= raw@.len(),
            texts(raw@) == all,
            last_part_end(all, 1, all.len() as int) == last_part_end(all, 1, to as int),
        decreases to,
    {
        assert(all[to - 1] == raw@[to - 1]@);
        to = to - 1;
    }
    if to > 1 {
        assert(all[to - 1] == raw@[to - 1]@);
    }
    let slash = slash_text();
    if to > 1 {
        let kept = crate::config::copy_range(&raw, 0, to);
        assert(texts(kept@) =~= all.take(to as int));
        join(&kept, slash.as_str())
    } else {
        slash
    }
}

/// Whether the path stands for one place, wherever it is seen from: on Windows
/// one from the root of a drive, or of what a computer shares.
pub open spec fn absolute_on(path: Seq<char>, platform: Platform) -> bool {
    if platform == Platform::Unix {
        absolute(path)
    } else if has_drive(path) {
        path.len() > 2 && separates(path[2], platform)
    } else {
        volume_end(path) > 0
    }
}

/// Whether the path stands for one place, wherever it is seen from.
pub fn is_absolute_on(path: &str, platform: Platform) -> (r: bool)
    ensures
        r == absolute_on(path@, platform),
{
    if platform == Platform::Unix {
        is_absolute(path)
    } else if starts_with_drive(path) {
        path.unicode_len() > 2 && is_separator(path.get_char(2), platform)
    } else {
        find_volume_end(path) > 0
    }
}

/// The parts of a path on a platform, without its volume.
pub open spec fn parts_on(path: Seq<char>, platform: Platform) -> Seq<Seq<char>> {
    if platform == Platform::Unix {
        parts_of(path)
    } else {
        parts_of(slashed(path.skip(volume_end(path))))
    }
}

/// The parts of a path on a platform, without its volume.
pub fn path_parts_on(path: &str, platform: Platform) -> (r: Vec<String>)
    ensures
        texts(r@) == parts_on(path@, platform),
{
    if platform == Platform::Unix {
        return path_parts(path);
    }
    let rest = path.substring_char(find_volume_end(path), path.unicode_len());
    assert(rest@ =~= path@.skip(volume_end(path@)));
    let text = slashed_text(rest);
    path_parts(text.as_str())
}

/// What tells the volumes of Windows apart: the letter of a drive in either
/// case, or the names of a computer and of what it shares.
pub open spec fn volume_of(path: Seq<char>) -> Seq<char> {
    let volume = slashed(path.take(volume_end(path)));
    if has_drive(path) {
        lowered(volume)
    } else {
        volume
    }
}

fn volume_text(path: &str) -> (r: String)
    ensures
        r@ == volume_of(path@),
{
    let volume = path.substring_char(0, find_volume_end(path));
    assert(volume@ =~= path@.take(volume_end(path@)));
    let text = slashed_text(volume);
    if starts_with_drive(path) {
        lower_text(text.as_str())
    } else {
        text
    }
}

/// Whether a `.` stands at a position up to the next separator or the end.
pub open spec fn dot_ends(path: Seq<char>, at: int) -> bool {
    path[at] == '.' && (at + 1 == path.len() || separates(path[at + 1], Platform::Windows))
}

/// The position behind separators and parts of a single `.`.
pub open spec fn skip_dots(path: Seq<char>, at: int) -> int
    decreases path.len() - at,
{
    if at < path.len() && (separates(path[at], Platform::Windows) || dot_ends(path, at)) {
        skip_dots(path, at + 1)
    } else {
        at
    }
}

/// The position behind so many parts and what names nothing in front of the
/// next.
pub open spec fn skip_parts(path: Seq<char>, at: int, count: nat) -> int
    decreases count,
{
    let start = skip_dots(path, at);
    if count == 0 {
        start
    } else {
        skip_parts(path, next_separator(path, start), (count - 1) as nat)
    }
}

/// The position in front of separators and parts of a single `.` at the end,
/// but not before `from`.
pub open spec fn drop_dots(path: Seq<char>, from: int, to: int) -> int
    decreases to - from,
{
    if to > from && (separates(path[to - 1], Platform::Windows) || (dot_ends(path, to - 1) && (to - 1
        == from || separates(path[to - 2], Platform::Windows)))) {
        drop_dots(path, from, to - 1)
    } else {
        to
    }
}

/// What is left of a path of Windows that stands for one place, seen from a
/// directory, if it lies below that. A drive alone leaves the path from the
/// root, and no directory the whole path.
pub open spec fn below_on_windows(path: Seq<char>, dir: Seq<char>) -> Option<Seq<char>> {
    let end = path.len() as int;
    let volume = volume_end(path);
    let root = if volume < end {
        volume + 1
    } else {
        end
    };
    if dir.len() == 0 {
        Some(path.take(drop_dots(path, root, end)))
    } else if volume_end(dir) == 0 || volume_of(dir) != volume_of(path) {
        None
    } else if has_drive(dir) && dir.len() == 2 {
        Some(path.subrange(2, drop_dots(path, 3, end)))
    } else if !absolute_on(dir, Platform::Windows) {
        None
    } else {
        let top = parts_on(dir, Platform::Windows);
        if lies_under(parts_on(path, Platform::Windows), top) {
            let from = skip_parts(path, volume, top.len());
            Some(path.subrange(from, drop_dots(path, from, end)))
        } else {
            None
        }
    }
}

fn after_dots(path: &str, at: usize) -> (r: usize)
    requires
        at <= path@.len(),
    ensures
        r == skip_dots(path@, at as int),
        at <= r <= path@.len(),
{
    let n: usize = path.unicode_len();
    let mut i: usize = at;
    while i < n && (is_separator(path.get_char(i), Platform::Windows) || is_dot_end(path, i))
        invariant
            n == path@.len(),
            at <= i <= n,
            skip_dots(path@, at as int) == skip_dots(path@, i as int),
        decreases n - i,
    {
        i = i + 1;
    }
    i
}

fn is_dot_end(path: &str, at: usize) -> (r: bool)
    requires
        at < path@.len(),
    ensures
        r == dot_ends(path@, at as int),
{
    path.get_char(at) == '.' && (path.unicode_len() - at == 1 || is_separator(
        path.get_char(at + 1),
        Platform::Windows,
    ))
}

fn after_parts_at(path: &str, at: usize, count: usize) -> (r: usize)
    requires
        at <= path@.len(),
    ensures
        r == skip_parts(path@, at as int, count as nat),
        at <= r <= path@.len(),
{
    let mut i: usize = after_dots(path, at);
    let mut left: usize = count;
    let ghost mut behind: int = at as int;
    while left > 0
        invariant
            at <= behind <= i <= path@.len(),
            i == skip_dots(path@, behind),
            skip_parts(path@, at as int, count as nat) == skip_parts(path@, behind, left as nat),
        decreases left,
    {
        let end: usize = find_separator(path, i);
        proof {
            behind = end as int;
        }
        i = after_dots(path, end);
        left = left - 1;
    }
    i
}

fn before_dots(path: &str, from: usize) -> (r: usize)
    requires
        from <= path@.len(),
    ensures
        r == drop_dots(path@, from as int, path@.len() as int),
        from <= r <= path@.len(),
{
    let mut to: usize = path.unicode_len();
    while to > from && (is_separator(path.get_char(to - 1), Platform::Windows) || (is_dot_end(
        path,
        to - 1,
    ) && (to - 1 == from || is_separator(path.get_char(to - 2), Platform::Windows))))
        invariant
            from <= to <= path@.len(),
            drop_dots(path@, from as int, path@.len() as int) == drop_dots(
                path@,
                from as int,
                to as int,
            ),
        decreases to,
    {
        to = to - 1;
    }
    to
}

/// What is left of a path of Windows that stands for one place, seen from a
/// directory, if it lies below that.
pub fn path_below_on_windows(path: &str, dir: &str) -> (r: Option<String>)
    requires
        absolute_on(path@, Platform::Windows),
    ensures
        crate::text::opt_text(r) == below_on_windows(path@, dir@),
{
    let n: usize = path.unicode_len();
    let volume: usize = find_volume_end(path);
    if dir.unicode_len() == 0 {
        let from: usize = if volume < n {
            volume + 1
        } else {
            n
        };
        let to: usize = before_dots(path, from);
        assert(path@.take(to as int) =~= path@.subrange(0, to as int));
        return Some(path.substring_char(0, to).to_owned());
    }
    if find_volume_end(dir) == 0 || !same_text(
        volume_text(dir).as_str(),
        volume_text(path).as_str(),
    ) {
        return None;
    }
    if starts_with_drive(dir) && dir.unicode_len() == 2 {
        proof {
            lemma_same_kind_of_volume(dir@, path@);
        }
        let to: usize = before_dots(path, 3);
        return Some(path.substring_char(2, to).to_owned());
    }
    if !is_absolute_on(dir, Platform::Windows) {
        return None;
    }
    let parts = path_parts_on(path, Platform::Windows);
    let top = path_parts_on(dir, Platform::Windows);
    if !parts_start_with(&parts, &top) {
        return None;
    }
    let from: usize = after_parts_at(path, volume, top.len());
    let to: usize = before_dots(path, from);
    Some(path.substring_char(from, to).to_owned())
}

proof fn lemma_next_separator(path: Seq<char>, from: int)
    requires
        0 <= from <= path.len(),
    ensures
        from <= next_separator(path, from) <= path.len(),
    decreases path.len() - from,
{
    if from < path.len() && !separates(path[from], Platform::Windows) {
        lemma_next_separator(path, from + 1);
    }
}

/// A path on the volume of a drive has a drive itself.
proof fn lemma_same_kind_of_volume(dir: Seq<char>, path: Seq<char>)
    requires
        has_drive(dir),
        volume_of(dir) == volume_of(path),
        volume_end(path) > 0,
    ensures
        has_drive(path),
{
    assert(volume_of(dir)[1] == ':');
    assert(volume_of(dir).len() == 2);
    if !has_drive(path) {
        let host_end = next_separator(path, 2);
        lemma_next_separator(path, 2);
        lemma_next_separator(path, host_end + 1);
        assert(volume_of(path)[1] == '/');
    }
}

proof fn lemma_after_parts(raw: Seq<Seq<char>>, from: int, count: nat)
    requires
        0 <= from <= raw.len(),
        raw.skip(from).filter(|p: Seq<char>| is_part(p)).len() >= count,
    ensures
        from <= after_parts(raw, from, count) <= raw.len(),
        raw.skip(after_parts(raw, from, count)).filter(|p: Seq<char>| is_part(p)).len()
            == raw.skip(from).filter(|p: Seq<char>| is_part(p)).len() - count,
    decreases count,
{
    if count > 0 {
        lemma_parts_left(raw, from);
        lemma_after_parts(raw, next_part(raw, from) + 1, (count - 1) as nat);
    }
}

proof fn lemma_next_part(raw: Seq<Seq<char>>, from: int)
    requires
        0 <= from <= raw.len(),
    ensures
        from <= next_part(raw, from) <= raw.len(),
        next_part(raw, from) < raw.len() ==> is_part(raw[next_part(raw, from)]),
    decreases raw.len() - from,
{
    if from < raw.len() && !is_part(raw[from]) {
        lemma_next_part(raw, from + 1);
    }
}

/// The parts of a path with a name behind it are those of the path and the name.
pub proof fn a_name_adds_a_part(dir: Seq<char>, name: Seq<char>)
    requires
        is_part(name),
        !name.contains('/'),
    ensures
        parts_of(dir + seq!['/'] + name) == parts_of(dir).push(name),
{
    lemma_pieces_append(dir, name, '/');
    let head = pieces(dir, '/');
    let pred = |p: Seq<char>| is_part(p);
    reveal(Seq::filter);
    assert(head.push(name).drop_last() =~= head);
}

/// What lies in a directory is found below it, under its own name.
pub proof fn a_name_lies_below_its_directory(dir: Seq<char>, name: Seq<char>)
    requires
        absolute(dir),
        is_part(name),
        !name.contains('/'),
    ensures
        below(dir + seq!['/'] + name, dir) == Some(name),
{
    let path = dir + seq!['/'] + name;
    let pred = |p: Seq<char>| is_part(p);
    let raw = pieces(path, '/');
    let count = parts_of(dir).len();
    let n = raw.len() as int;
    a_name_adds_a_part(dir, name);
    lemma_pieces_append(dir, name, '/');
    assert(parts_of(path).subrange(0, count as int) =~= parts_of(dir));
    assert(raw.skip(0) =~= raw);
    lemma_after_parts(raw, 0, count);
    let after = after_parts(raw, 0, count);
    lemma_parts_left(raw, after);
    lemma_next_part(raw, after);
    let from = next_part(raw, after);
    if from < n - 1 {
        let rest = raw.skip(from + 1);
        assert(rest.last() == name);
        rest.lemma_filter_contains(pred, rest.len() - 1);
    }
    assert(from == n - 1);
    assert(raw[n - 1] == name);
    assert(raw.subrange(n - 1, n) =~= seq![name]);
}

/// A directory that is entered and left again changes nothing about where a walk
/// ends, and a directory that is entered is where it ends.
pub proof fn walking_enters_and_leaves(parts: Seq<Seq<char>>, name: Seq<char>)
    requires
        name != parent_step(),
    ensures
        walked(parts.push(name)) == walked(parts).push(name),
        walked(parts.push(name).push(parent_step())) == walked(parts),
{
    assert(parts.push(name).drop_last() =~= parts);
    let longer = parts.push(name).push(parent_step());
    assert(longer.drop_last() =~= parts.push(name));
    assert(longer.last() == parent_step());
    assert(walked(parts.push(name)) == walked(parts).push(name));
    assert(walked(longer) == walked(parts.push(name)).drop_last());
    assert(walked(parts).push(name).drop_last() =~= walked(parts));
}

/// A path from the root stands for itself, and another one is seen from the base
/// with a slash between them.
pub proof fn paths_are_seen_from_a_base(base: Seq<char>, rel: Seq<char>)
    ensures
        rel.len() > 0 && rel[0] == '/' ==> seen_from(base, rel) == rel,
        !(rel.len() > 0 && rel[0] == '/') && base.len() > 0 && base.last() != '/' ==> seen_from(
            base,
            rel,
        ) == base + seq!['/'] + rel,
        !(rel.len() > 0 && rel[0] == '/') && base.len() > 0 && base.last() == '/' ==> seen_from(
            base,
            rel,
        ) == base + rel,
        seen_on(base, rel, Platform::Unix) == seen_from(base, rel),
{
    assert(base.push('/') + rel =~= base + seq!['/'] + rel);
}

/// The last name of a path is its own, unless the path leads to a parent or to
/// the root.
pub proof fn a_path_is_called_by_its_last_name(dir: Seq<char>, name: Seq<char>)
    requires
        is_part(name),
        !name.contains('/'),
    ensures
        base_name(dir + seq!['/'] + name) == if name == parent_step() {
            None::<Seq<char>>
        } else {
            Some(name)
        },
        base_name(name) == if name == parent_step() {
            None::<Seq<char>>
        } else {
            Some(name)
        },
{
    a_name_adds_a_part(dir, name);
    lemma_pieces_plain(name, '/');
    let one = seq![name];
    assert(parts_of(name) =~= one) by {
        reveal_with_fuel(Seq::filter, 2);
        assert(one.drop_last() =~= Seq::<Seq<char>>::empty());
    }
}

/// Whether the text names something in a directory on Windows.
pub open spec fn is_windows_name(name: Seq<char>) -> bool {
    is_part(name) && !name.contains('/') && !name.contains('\\')
}

proof fn lemma_slashed_parts(front: Seq<char>, name: Seq<char>)
    requires
        is_windows_name(name),
    ensures
        slashed(front + seq!['\\'] + name) == slashed(front) + seq!['/'] + name,
        parts_of(slashed(front + seq!['\\'] + name)) == parts_of(slashed(front)).push(name),
{
    assert forall|i: int| 0 <= i < name.len() implies name[i] != '\\' by {
        assert(name.contains(name[i]));
    }
    assert(slashed(front + seq!['\\'] + name) =~= slashed(front) + seq!['/'] + name);
    a_name_adds_a_part(slashed(front), name);
}

/// On Windows a path with a drive is absolute where a separator follows the
/// drive, and one that only begins with a separator is not.
pub proof fn drives_are_roots_on_windows(drive: char, rest: Seq<char>)
    requires
        'a' <= drive <= 'z' || 'A' <= drive <= 'Z',
        rest.len() > 0,
        rest[0] != '/',
        rest[0] != '\\',
    ensures
        absolute_on(seq![drive, ':', '\\'] + rest, Platform::Windows),
        absolute_on(seq![drive, ':', '/'] + rest, Platform::Windows),
        !absolute_on(seq![drive, ':'] + rest, Platform::Windows),
        !absolute_on(seq!['\\'] + rest, Platform::Windows),
        absolute_on(seq!['/'] + rest, Platform::Unix),
{
    let bare = seq![drive, ':'] + rest;
    let top = seq!['\\'] + rest;
    assert((seq![drive, ':', '\\'] + rest)[1] == ':' && (seq![drive, ':', '\\'] + rest)[2] == '\\');
    assert((seq![drive, ':', '/'] + rest)[1] == ':' && (seq![drive, ':', '/'] + rest)[2] == '/');
    assert(bare[0] == drive && bare[1] == ':' && bare[2] == rest[0]);
    assert(top[0] == '\\' && top[1] == rest[0]);
}

/// On Windows a name is seen from a directory with a backslash between them, a
/// path with a drive stands for itself, and a path from the root stays on the
/// drive of the directory.
pub proof fn paths_are_seen_on_windows(drive: char, dir: Seq<char>, name: Seq<char>, other: char)
    requires
        'a' <= drive <= 'z' || 'A' <= drive <= 'Z',
        'a' <= other <= 'z' || 'A' <= other <= 'Z',
        dir.len() > 0,
        dir.last() != '/',
        dir.last() != '\\',
        name.len() > 1,
        name[0] != '/',
        name[0] != '\\',
        name[1] != ':',
    ensures
        seen_on(seq![drive, ':', '\\'] + dir, name, Platform::Windows) == seq![drive, ':', '\\'] + dir
            + seq!['\\'] + name,
        seen_on(seq![drive, ':', '\\'] + dir, seq![other, ':', '\\'] + name, Platform::Windows)
            == seq![other, ':', '\\'] + name,
        seen_on(seq![drive, ':', '\\'] + dir, seq!['\\'] + name, Platform::Windows) == seq![
            drive,
            ':',
            '\\',
        ] + name,
{
    let base = seq![drive, ':', '\\'] + dir;
    let rooted = seq!['\\'] + name;
    let away = seq![other, ':', '\\'] + name;
    assert(base[0] == drive && base[1] == ':');
    assert(base.last() == dir.last());
    assert(volume_end(name) == 0);
    assert(rooted[0] == '\\' && rooted[1] == name[0]);
    assert(volume_end(rooted) == 0);
    assert(away[0] == other && away[1] == ':');
    assert(base.push('\\') + name =~= base + seq!['\\'] + name);
    assert(base.take(2) + rooted =~= seq![drive, ':', '\\'] + name);
}

/// On Windows a path is called by what stands behind its last separator.
pub proof fn a_path_is_called_by_its_last_name_on_windows(dir: Seq<char>, name: Seq<char>)
    requires
        has_drive(dir),
        is_windows_name(name),
        name != parent_step(),
    ensures
        base_name_on(dir + seq!['\\'] + name, Platform::Windows) == Some(name),
{
    let path = dir + seq!['\\'] + name;
    assert(path[0] == dir[0] && path[1] == dir[1]);
    assert(path.skip(2) =~= dir.skip(2) + seq!['\\'] + name);
    lemma_slashed_parts(dir.skip(2), name);
}

proof fn lemma_separator_at(path: Seq<char>, from: int, to: int)
    requires
        0 <= from <= to <= path.len(),
        to < path.len() ==> separates(path[to], Platform::Windows),
        forall|i: int| from <= i < to ==> !separates(#[trigger] path[i], Platform::Windows),
    ensures
        next_separator(path, from) == to,
    decreases to - from,
{
    if from < to {
        lemma_separator_at(path, from + 1, to);
    }
}

/// On Windows what lies in a directory of a drive is found below it under its own
/// name, whatever the case of the drive; on another drive, or from a relative
/// directory, it is not.
pub proof fn names_lie_below_their_directory_on_windows(
    drive: char,
    again: char,
    other: char,
    dir: Seq<char>,
    name: Seq<char>,
)
    requires
        'a' <= drive <= 'z' || 'A' <= drive <= 'Z',
        'a' <= again <= 'z' || 'A' <= again <= 'Z',
        'a' <= other <= 'z' || 'A' <= other <= 'Z',
        lower(again) == lower(drive),
        lower(other) != lower(drive),
        is_windows_name(dir),
        is_windows_name(name),
        dir.len() < 2 || dir[1] != ':',
    ensures
        below_on_windows(
            seq![drive, ':', '\\'] + dir + seq!['\\'] + name,
            seq![again, ':', '\\'] + dir,
        ) == Some(name),
        below_on_windows(
            seq![other, ':', '\\'] + dir + seq!['\\'] + name,
            seq![drive, ':', '\\'] + dir,
        ) is None,
        below_on_windows(seq![drive, ':', '\\'] + dir + seq!['\\'] + name, dir) is None,
{
    let top = seq![again, ':', '\\'] + dir;
    let near = seq![drive, ':', '\\'] + dir;
    let path = near + seq!['\\'] + name;
    let far = seq![other, ':', '\\'] + dir + seq!['\\'] + name;
    let d = dir.len() as int;
    let end = path.len() as int;
    let none = Seq::<char>::empty();
    assert forall|i: int| 0 <= i < d implies dir[i] != '/' && dir[i] != '\\' by {
        assert(dir.contains(dir[i]));
    }
    assert forall|i: int| 0 <= i < name.len() implies name[i] != '/' && name[i] != '\\' by {
        assert(name.contains(name[i]));
    }
    assert(volume_end(dir) == 0);
    assert(path[0] == drive && path[1] == ':' && path[2] == '\\');
    assert(top[0] == again && top[1] == ':' && top[2] == '\\');
    assert(near[0] == drive && near[1] == ':' && near[2] == '\\');
    assert(far[0] == other && far[1] == ':');
    assert(volume_of(path) =~= seq![lower(drive), ':']);
    assert(volume_of(top) =~= seq![lower(drive), ':']);
    assert(volume_of(near) =~= seq![lower(drive), ':']);
    assert(volume_of(far)[0] == lower(other));
    assert(volume_of(near)[0] == lower(drive));
    assert(top.skip(2) =~= none + seq!['\\'] + dir);
    assert(path.skip(2) =~= (none + seq!['\\'] + dir) + seq!['\\'] + name);
    lemma_slashed_parts(none, dir);
    lemma_slashed_parts(none + seq!['\\'] + dir, name);
    let parts = parts_on(top, Platform::Windows);
    let all = parts_on(path, Platform::Windows);
    assert(slashed(none) =~= none);
    lemma_pieces_plain(none, '/');
    assert(parts_of(none) =~= Seq::<Seq<char>>::empty()) by {
        reveal_with_fuel(Seq::filter, 2);
        assert(seq![none].drop_last() =~= Seq::<Seq<char>>::empty());
    }
    assert(parts =~= seq![dir]);
    assert(all =~= seq![dir, name]);
    assert(parts.is_prefix_of(all)) by {
        assert(all.subrange(0, 1) =~= parts);
    }
    let mid = 3 + d;
    let from = mid + 1;
    assert forall|i: int| 3 <= i < mid implies path[i] == dir[i - 3] by {}
    assert forall|i: int| from <= i < end implies path[i] == name[i - from] by {}
    assert(path[mid] == '\\');
    if d == 1 {
        assert(dir =~= seq![dir[0]]);
    }
    if name.len() == 1 {
        assert(name =~= seq![name[0]]);
    }
    assert(!dot_ends(path, 3)) by {
        if d > 1 {
            assert(path[4] == dir[1]);
        }
    }
    assert(skip_dots(path, 3) == 3);
    assert(skip_dots(path, 2) == 3);
    assert forall|i: int| 3 <= i < mid implies !separates(#[trigger] path[i], Platform::Windows) by {
        assert(path[i] == dir[i - 3]);
    }
    lemma_separator_at(path, 3, mid);
    assert(!dot_ends(path, from)) by {
        if name.len() > 1 {
            assert(path[from + 1] == name[1]);
        }
    }
    assert(path[from] == name[0]);
    assert(skip_dots(path, from) == from);
    assert(skip_dots(path, mid) == from);
    assert(skip_parts(path, mid, 0) == from);
    assert(skip_parts(path, 2, 1) == from);
    assert(path[end - 1] == name[name.len() - 1]);
    if name.len() > 1 {
        assert(path[end - 2] == name[name.len() - 2]);
    }
    assert(drop_dots(path, from, end) == end);
    assert(path.subrange(from, end) =~= name);
}

/// A path without its tail is the path, where it ends in a name.
pub proof fn a_path_that_ends_in_a_name_has_no_tail(dir: Seq<char>, name: Seq<char>)
    requires
        absolute(dir),
        is_part(name),
        !name.contains('/'),
    ensures
        without_tail(dir + seq!['/'] + name) == dir + seq!['/'] + name,
        without_tail(dir + seq!['/'] + name + seq!['/']) == dir + seq!['/'] + name,
        without_tail(seq!['/']) == seq!['/'],
{
    let path = dir + seq!['/'] + name;
    let none = Seq::<char>::empty();
    let raw = pieces(path, '/');
    lemma_pieces_append(dir, name, '/');
    lemma_pieces_append(path, none, '/');
    assert(path + seq!['/'] + none =~= path + seq!['/']);
    let longer = pieces(path + seq!['/'], '/');
    assert(longer =~= raw.push(none));
    let n = raw.len() as int;
    crate::text::lemma_pieces_nonempty(dir, '/');
    assert(raw[n - 1] == name);
    assert(longer[n - 1] == name && longer[n] == none);
    assert(n >= 2);
    assert(last_part_end(raw, 1, n) == n);
    assert(last_part_end(longer, 1, n) == n);
    assert(last_part_end(longer, 1, n + 1) == n);
    assert(raw.take(n) =~= raw);
    assert(longer.take(n) =~= raw);
    lemma_pieces_join_back(path);
    lemma_pieces_append(none, none, '/');
    lemma_pieces_plain(none, '/');
    assert(none + seq!['/'] + none =~= seq!['/']);
    let two = pieces(seq!['/'], '/');
    assert(two.len() == 2 && two[1] == none);
    assert(last_part_end(two, 1, 1) == 1);
    assert(last_part_end(two, 1, 2) == 1);
}

proof fn lemma_pieces_join_back(s: Seq<char>)
    ensures
        pieces(s, '/').len() > 0,
        joined(pieces(s, '/'), seq!['/']) == s,
    decreases s.len(),
{
    if s.len() > 0 {
        let front = s.drop_last();
        let head = pieces(front, '/');
        let all = pieces(s, '/');
        lemma_pieces_join_back(front);
        if s.last() == '/' {
            assert(all.drop_last() =~= head);
            assert(joined(all, seq!['/']) =~= s);
        } else {
            assert(all.drop_last() =~= head.drop_last());
            assert(all.last() == head.last().push(s.last()));
            if head.len() == 1 {
                assert(joined(all, seq!['/']) =~= s);
            } else {
                let before = joined(head.drop_last(), seq!['/']) + seq!['/'];
                assert(joined(head, seq!['/']) == before + head.last());
                assert(joined(all, seq!['/']) == before + all.last());
                assert(before + head.last().push(s.last()) =~= front.push(s.last()));
                assert(front.push(s.last()) =~= s);
            }
        }
    } else {
        assert(joined(pieces(s, '/'), seq!['/']) =~= s);
    }
}

} // verus!
