//! The resources of a repository: paths in a canonical form, and when two of them overlap.
use vstd::prelude::*;

use crate::ordered;
use crate::ordered::Table;
use crate::paths::PathStyle;
use crate::text;

verus! {

/// One step along a path: an empty segment and `.` stay, `..` goes up, any other goes down. Above
/// the start there is nothing.
pub open spec fn step(at: Seq<Seq<char>>, segment: Seq<char>) -> Option<Seq<Seq<char>>> {
    if segment == Seq::<char>::empty() || segment == "."@ {
        Some(at)
    } else if segment == ".."@ {
        if at.len() == 0 {
            None
        } else {
            Some(at.drop_last())
        }
    } else {
        Some(at.push(segment))
    }
}

/// The place that the segments of a path lead to; none where they lead above the start.
pub open spec fn walked(segments: Seq<Seq<char>>) -> Option<Seq<Seq<char>>>
    decreases segments.len(),
{
    if segments.len() == 0 {
        Some(Seq::empty())
    } else {
        match walked(segments.drop_last()) {
            Some(at) => step(at, segments.last()),
            None => None,
        }
    }
}

/// The canonical form of one resource, which is none where it names the root itself, or the
/// reason why it is refused.
pub open spec fn canonical(resource: Seq<char>, style: PathStyle) -> Result<
    Option<Seq<char>>,
    Seq<char>,
> {
    let path = style.slashed(text::trimmed(resource));
    if style.has_drive(path) || (path.len() > 0 && path[0] == '/') {
        Err("resource must be a repository-relative path"@)
    } else {
        match walked(text::pieces(path, '/')) {
            None => Err("resource must not escape the repository root"@),
            Some(at) => if at.len() == 0 {
                Ok(None)
            } else {
                Ok(Some(text::joined(at, "/"@)))
            },
        }
    }
}

/// The canonical forms of all the resources, or the reason why the first refused one is refused.
pub open spec fn canonical_set(resources: Seq<Seq<char>>, style: PathStyle) -> Result<
    Set<Seq<char>>,
    Seq<char>,
>
    decreases resources.len(),
{
    if resources.len() == 0 {
        Ok(Set::empty())
    } else {
        match (canonical_set(resources.drop_last(), style), canonical(resources.last(), style)) {
            (Err(reason), _) => Err(reason),
            (Ok(_), Err(reason)) => Err(reason),
            (Ok(set), Ok(None)) => Ok(set),
            (Ok(set), Ok(Some(path))) => Ok(set.insert(path)),
        }
    }
}

/// The canonical forms of the resources, each once, in the order of texts.
pub open spec fn normalized(resources: Seq<Seq<char>>, style: PathStyle) -> Result<
    Seq<Seq<char>>,
    Seq<char>,
> {
    match canonical_set(resources, style) {
        Ok(set) => Ok(ordered::listing::<String>(set)),
        Err(reason) => Err(reason),
    }
}

/// Whether a path lies inside another.
pub open spec fn inside(path: Seq<char>, directory: Seq<char>) -> bool {
    directory.is_prefix_of(path) && directory.len() < path.len() && path[directory.len() as int]
        == '/'
}

/// Whether two paths overlap: they are the same, or one lies inside the other.
pub open spec fn overlapping(left: Seq<char>, right: Seq<char>) -> bool {
    left == right || inside(left, right) || inside(right, left)
}

/// Whether some path of one list overlaps some path of the other.
pub open spec fn lists_overlap(left: Seq<Seq<char>>, right: Seq<Seq<char>>) -> bool {
    exists|i: int, j: int|
        0 <= i < left.len() && 0 <= j < right.len() && overlapping(
            #[trigger] left[i],
            #[trigger] right[j],
        )
}

/// The canonical form of one resource.
fn canonical_path(resource: &str, style: PathStyle) -> (r: Result<Option<String>, String>)
    ensures
        match r {
            Ok(path) => canonical(resource@, style) == Ok::<Option<Seq<char>>, Seq<char>>(
                path.deep_view(),
            ),
            Err(reason) => canonical(resource@, style) == Err::<Option<Seq<char>>, Seq<char>>(
                reason@,
            ),
        },
{
    let trimmed = text::trim(resource);
    let path = style.with_slashes(trimmed.as_str());
    let ghost whole = path@;
    let chars = text::characters(path.as_str());
    if style.begins_with_drive(&chars) || (chars.len() > 0 && chars[0] == '/') {
        return Err("resource must be a repository-relative path".to_owned());
    }
    let segments = text::split(path.as_str(), '/');
    let ghost all = segments.deep_view();
    let mut at: Vec<String> = Vec::new();
    assert(all.take(0) == Seq::<Seq<char>>::empty());
    assert(at.deep_view() == Seq::<Seq<char>>::empty());
    let mut i: usize = 0;
    while i < segments.len()
        invariant
            i <= segments.len(),
            all == segments.deep_view(),
            whole == style.slashed(text::trimmed(resource@)),
            all == text::pieces(whole, '/'),
            !style.has_drive(whole),
            !(whole.len() > 0 && whole[0] == '/'),
            walked(all.take(i as int)) == Some(at.deep_view()),
        decreases segments.len() - i,
    {
        let segment: &String = &segments[i];
        let ghost before = at.deep_view();
        assert(all.take(i + 1).drop_last() == all.take(i as int));
        assert(all.take(i + 1).last() == segment@);
        let here = text::same(segment.as_str(), "") || text::same(segment.as_str(), ".");
        proof {
            reveal_strlit("");
            assert(""@ == Seq::<char>::empty());
        }
        if !here {
            if text::same(segment.as_str(), "..") {
                if at.pop().is_none() {
                    assert(walked(all) is None) by {
                        lemma_walked_none(all, i + 1);
                    }
                    return Err("resource must not escape the repository root".to_owned());
                }
                assert(at.deep_view() == before.drop_last());
            } else {
                at.push(segment.clone());
                assert(at.deep_view() == before.push(segment@));
            }
        }
        i = i + 1;
    }
    assert(all.take(i as int) == all);
    if at.len() == 0 {
        Ok(None)
    } else {
        Ok(Some(text::join(&at, "/")))
    }
}

proof fn lemma_walked_none(segments: Seq<Seq<char>>, n: int)
    requires
        0 <= n <= segments.len(),
        walked(segments.take(n)) is None,
    ensures
        walked(segments) is None,
    decreases segments.len() - n,
{
    if n < segments.len() {
        assert(segments.take(n + 1).drop_last() == segments.take(n));
        lemma_walked_none(segments, n + 1);
    } else {
        assert(segments.take(n) == segments);
    }
}

proof fn lemma_canonical_set_err(resources: Seq<Seq<char>>, style: PathStyle, n: int)
    requires
        0 <= n <= resources.len(),
        canonical_set(resources.take(n), style) is Err,
    ensures
        canonical_set(resources, style) == canonical_set(resources.take(n), style),
    decreases resources.len() - n,
{
    if n < resources.len() {
        assert(resources.take(n + 1).drop_last() == resources.take(n));
        lemma_canonical_set_err(resources, style, n + 1);
    } else {
        assert(resources.take(n) == resources);
    }
}

/// Puts resources into their canonical form, sorted and each once.
pub fn normalize_resources(resources: Vec<String>, style: PathStyle) -> (r: Result<
    Vec<String>,
    String,
>)
    ensures
        match r {
            Ok(paths) => normalized(resources.deep_view(), style) == Ok::<
                Seq<Seq<char>>,
                Seq<char>,
            >(paths.deep_view()),
            Err(reason) => normalized(resources.deep_view(), style) == Err::<
                Seq<Seq<char>>,
                Seq<char>,
            >(reason@),
        },
{
    let ghost all = resources.deep_view();
    let mut paths: Table<String, ()> = Table::new();
    assert(all.take(0) == Seq::<Seq<char>>::empty());
    assert(paths@.dom() == Set::<Seq<char>>::empty());
    let mut i: usize = 0;
    while i < resources.len()
        invariant
            i <= resources.len(),
            all == resources.deep_view(),
            canonical_set(all.take(i as int), style) == Ok::<Set<Seq<char>>, Seq<char>>(
                paths@.dom(),
            ),
        decreases resources.len() - i,
    {
        let ghost before = paths@.dom();
        assert(all.take(i + 1).drop_last() == all.take(i as int));
        assert(all.take(i + 1).last() == resources@[i as int]@);
        match canonical_path(resources[i].as_str(), style) {
            Ok(Some(path)) => {
                let ghost p = path@;
                paths.insert(path, ());
                assert(paths@.dom() == before.insert(p));
            },
            Ok(None) => {},
            Err(reason) => {
                proof {
                    lemma_canonical_set_err(all, style, i + 1);
                }
                return Err(reason);
            },
        }
        i = i + 1;
    }
    assert(all.take(i as int) == all);
    let ghost keys = ordered::listing::<String>(paths@.dom());
    let mut sorted: Vec<String> = Vec::new();
    let mut k: usize = 0;
    while k < paths.len()
        invariant
            keys == ordered::listing::<String>(paths@.dom()),
            k <= keys.len(),
            sorted.deep_view() == keys.take(k as int),
        decreases keys.len() - k,
    {
        let path = paths.key_at(k).clone();
        let ghost before = sorted.deep_view();
        sorted.push(path);
        assert(sorted.deep_view() == before.push(keys[k as int]));
        assert(keys.take(k + 1) == keys.take(k as int).push(keys[k as int]));
        k = k + 1;
    }
    assert(keys.take(k as int) == keys);
    Ok(sorted)
}

/// Whether a path lies inside another.
fn lies_inside(path: &Vec<char>, directory: &Vec<char>) -> (r: bool)
    ensures
        r == inside(path@, directory@),
{
    if directory.len() >= path.len() || path[directory.len()] != '/' {
        return false;
    }
    let mut i: usize = 0;
    while i < directory.len()
        invariant
            i <= directory.len() < path.len(),
            forall|j: int| 0 <= j < i ==> path@[j] == #[trigger] directory@[j],
        decreases directory.len() - i,
    {
        if path[i] != directory[i] {
            return false;
        }
        i = i + 1;
    }
    assert(directory@ =~= path@.subrange(0, directory@.len() as int));
    true
}

/// Whether two paths overlap.
pub fn path_overlaps(left: &str, right: &str) -> (r: bool)
    ensures
        r == overlapping(left@, right@),
{
    let a = text::characters(left);
    let b = text::characters(right);
    text::same(left, right) || lies_inside(&a, &b) || lies_inside(&b, &a)
}

/// Whether some path of one list overlaps some path of the other.
pub fn resources_overlap(left: &Vec<String>, right: &Vec<String>) -> (r: bool)
    ensures
        r == lists_overlap(left.deep_view(), right.deep_view()),
{
    let ghost a = left.deep_view();
    let ghost b = right.deep_view();
    let mut i: usize = 0;
    while i < left.len()
        invariant
            i <= left.len(),
            a == left.deep_view(),
            b == right.deep_view(),
            forall|p: int, q: int|
                0 <= p < i && 0 <= q < b.len() ==> !overlapping(#[trigger] a[p], #[trigger] b[q]),
        decreases left.len() - i,
    {
        let mut j: usize = 0;
        while j < right.len()
            invariant
                i < left.len(),
                j <= right.len(),
                a == left.deep_view(),
                b == right.deep_view(),
                forall|q: int| 0 <= q < j ==> !overlapping(a[i as int], #[trigger] b[q]),
            decreases right.len() - j,
        {
            if path_overlaps(left[i].as_str(), right[j].as_str()) {
                assert(overlapping(a[i as int], b[j as int]));
                return true;
            }
            j = j + 1;
        }
        i = i + 1;
    }
    false
}

/// Whether a segment names something inside a directory: it is not empty, neither `.` nor `..`, and
/// has no slash in it.
pub open spec fn is_name(segment: Seq<char>) -> bool {
    &&& segment.len() > 0
    &&& segment != "."@
    &&& segment != ".."@
    &&& text::lacks(segment, '/')
}

/// Whether all the segments of a path are names, and there is one.
pub open spec fn are_names(segments: Seq<Seq<char>>) -> bool {
    &&& segments.len() > 0
    &&& forall|i: int| 0 <= i < segments.len() ==> is_name(#[trigger] segments[i])
}

proof fn lemma_walked_names(segments: Seq<Seq<char>>)
    requires
        walked(segments) is Some,
        forall|i: int| 0 <= i < segments.len() ==> text::lacks(#[trigger] segments[i], '/'),
    ensures
        forall|i: int| 0 <= i < walked(segments)->0.len() ==> is_name(#[trigger] walked(segments)->0[i]),
    decreases segments.len(),
{
    if segments.len() > 0 {
        let init = segments.drop_last();
        assert forall|i: int| 0 <= i < init.len() implies text::lacks(#[trigger] init[i], '/') by {
            assert(init[i] == segments[i]);
        }
        lemma_walked_names(init);
        let at = walked(init)->0;
        let last = segments[segments.len() - 1];
        if last.len() == 0 {
            assert(last == Seq::<char>::empty());
        }
        let next = walked(segments)->0;
        assert forall|i: int| 0 <= i < next.len() implies is_name(#[trigger] next[i]) by {
            if i < at.len() {
                assert(is_name(at[i]));
            }
        }
    }
}

proof fn lemma_walked_lack(segments: Seq<Seq<char>>, c: char)
    requires
        walked(segments) is Some,
        forall|i: int| 0 <= i < segments.len() ==> text::lacks(#[trigger] segments[i], c),
    ensures
        forall|i: int|
            0 <= i < walked(segments)->0.len() ==> text::lacks(#[trigger] walked(segments)->0[i], c),
    decreases segments.len(),
{
    if segments.len() > 0 {
        let init = segments.drop_last();
        assert forall|i: int| 0 <= i < init.len() implies text::lacks(#[trigger] init[i], c) by {
            assert(init[i] == segments[i]);
        }
        lemma_walked_lack(init, c);
        let at = walked(init)->0;
        let next = walked(segments)->0;
        assert(text::lacks(segments[segments.len() - 1], c));
        assert forall|i: int| 0 <= i < next.len() implies text::lacks(#[trigger] next[i], c) by {
            if i < at.len() {
                assert(text::lacks(at[i], c));
            }
        }
    }
}

proof fn lemma_names_stay(names: Seq<Seq<char>>)
    requires
        forall|i: int| 0 <= i < names.len() ==> is_name(#[trigger] names[i]),
    ensures
        walked(names) == Some(names),
    decreases names.len(),
{
    if names.len() == 0 {
        assert(names == Seq::<Seq<char>>::empty());
    } else {
        let init = names.drop_last();
        assert forall|i: int| 0 <= i < init.len() implies is_name(#[trigger] init[i]) by {
            assert(init[i] == names[i]);
        }
        lemma_names_stay(init);
        assert(is_name(names[names.len() - 1]));
        assert(init.push(names.last()) == names);
    }
}

/// A canonical form is made of names with slashes between them; where no white space stands at its
/// ends and no drive at its beginning, it is its own canonical form.
pub proof fn canonical_forms_are_final(resource: Seq<char>, style: PathStyle)
    requires
        canonical(resource, style) is Ok,
        canonical(resource, style)->Ok_0 is Some,
    ensures
        ({
            let path = canonical(resource, style)->Ok_0->0;
            &&& are_names(text::pieces(path, '/'))
            &&& text::trimmed(path) == path && !style.has_drive(path) ==> canonical(path, style)
                == canonical(resource, style)
        }),
{
    let whole = style.slashed(text::trimmed(resource));
    let segments = text::pieces(whole, '/');
    let names = walked(segments)->0;
    let path = canonical(resource, style)->Ok_0->0;
    text::lemma_pieces_lack(whole, '/');
    lemma_walked_names(segments);
    lemma_names_stay(names);
    reveal_strlit("/");
    assert("/"@ == seq!['/']);
    assert forall|i: int| 0 <= i < names.len() implies text::lacks(#[trigger] names[i], '/') by {
        assert(is_name(names[i]));
    }
    text::lemma_pieces_of_joined(names, '/');
    assert(text::pieces(path, '/') == names);
    assert(style.slashed(path) == path) by {
        if style is Backslash {
            text::lemma_pieces_lack_too(whole, '/', '\\');
            lemma_walked_lack(segments, '\\');
            text::lemma_joined_lacks(names, "/"@, '\\');
        }
    }
    if path.len() > 0 && path[0] == '/' {
        let rest = path.skip(1);
        assert(path == Seq::<char>::empty() + seq!['/'] + rest);
        text::lemma_pieces_divide(Seq::empty(), rest, '/');
        text::lemma_one_piece(Seq::empty(), '/');
        assert(names[0] == Seq::<char>::empty());
        assert(is_name(names[0]));
    }
}

/// Normalized resources are the canonical forms of the given ones, each once, in the order of
/// texts.
pub proof fn normalized_lists_are_ordered(
    resources: Seq<Seq<char>>,
    style: PathStyle,
    path: Seq<char>,
)
    requires
        normalized(resources, style) is Ok,
    ensures
        ordered::increasing::<String>(normalized(resources, style)->Ok_0),
        normalized(resources, style)->Ok_0.contains(path) <==> exists|i: int|
            0 <= i < resources.len() && canonical(#[trigger] resources[i], style) == Ok::<
                Option<Seq<char>>,
                Seq<char>,
            >(Some(path)),
{
    let set = canonical_set(resources, style)->Ok_0;
    lemma_canonical_set(resources, style, path);
    ordered::lemma_listing_of_finite::<String>(set);
    assert(normalized(resources, style)->Ok_0.to_set().contains(path) == set.contains(path));
}

proof fn lemma_canonical_set(resources: Seq<Seq<char>>, style: PathStyle, path: Seq<char>)
    requires
        canonical_set(resources, style) is Ok,
    ensures
        canonical_set(resources, style)->Ok_0.finite(),
        canonical_set(resources, style)->Ok_0.contains(path) <==> exists|i: int|
            0 <= i < resources.len() && canonical(#[trigger] resources[i], style) == Ok::<
                Option<Seq<char>>,
                Seq<char>,
            >(Some(path)),
    decreases resources.len(),
{
    if resources.len() > 0 {
        let init = resources.drop_last();
        lemma_canonical_set(init, style, path);
        let set = canonical_set(resources, style)->Ok_0;
        if set.contains(path) {
            if canonical_set(init, style)->Ok_0.contains(path) {
                let i = choose|i: int|
                    0 <= i < init.len() && canonical(#[trigger] init[i], style) == Ok::<
                        Option<Seq<char>>,
                        Seq<char>,
                    >(Some(path));
                assert(resources[i] == init[i]);
            } else {
                assert(canonical(resources[resources.len() - 1], style) == Ok::<
                    Option<Seq<char>>,
                    Seq<char>,
                >(Some(path)));
            }
        }
        if exists|i: int|
            0 <= i < resources.len() && canonical(#[trigger] resources[i], style) == Ok::<
                Option<Seq<char>>,
                Seq<char>,
            >(Some(path)) {
            let i = choose|i: int|
                0 <= i < resources.len() && canonical(#[trigger] resources[i], style) == Ok::<
                    Option<Seq<char>>,
                    Seq<char>,
                >(Some(path));
            if i < init.len() {
                assert(init[i] == resources[i]);
            }
        }
    }
}

/// Paths overlap exactly where the names of one lead the names of the other: they are compared name
/// by name, not letter by letter.
pub proof fn overlap_is_by_names(left: Seq<Seq<char>>, right: Seq<Seq<char>>)
    requires
        are_names(left),
        are_names(right),
    ensures
        overlapping(text::joined(left, "/"@), text::joined(right, "/"@)) <==> left.is_prefix_of(
            right,
        ) || right.is_prefix_of(left),
{
    reveal_strlit("/");
    assert("/"@ == seq!['/']);
    lemma_inside_by_names(left, right);
    lemma_inside_by_names(right, left);
    if left.is_prefix_of(right) && left.len() == right.len() {
        assert(left == right);
    }
    if right.is_prefix_of(left) && left.len() == right.len() {
        assert(left == right);
    }
    assert(left == right ==> left.is_prefix_of(right));
}

proof fn lemma_inside_by_names(path: Seq<Seq<char>>, directory: Seq<Seq<char>>)
    requires
        are_names(path),
        are_names(directory),
    ensures
        inside(text::joined(path, seq!['/']), text::joined(directory, seq!['/'])) <==> directory.len()
            < path.len() && directory.is_prefix_of(path),
        text::joined(path, seq!['/']) == text::joined(directory, seq!['/']) <==> path == directory,
{
    let p = text::joined(path, seq!['/']);
    let d = text::joined(directory, seq!['/']);
    assert forall|i: int| 0 <= i < path.len() implies text::lacks(#[trigger] path[i], '/') by {
        assert(is_name(path[i]));
    }
    assert forall|i: int| 0 <= i < directory.len() implies text::lacks(
        #[trigger] directory[i],
        '/',
    ) by {
        assert(is_name(directory[i]));
    }
    text::lemma_pieces_of_joined(path, '/');
    text::lemma_pieces_of_joined(directory, '/');
    if inside(p, d) {
        let rest = p.skip(d.len() as int + 1);
        assert(p == d + seq!['/'] + rest);
        text::lemma_pieces_divide(d, rest, '/');
        text::lemma_pieces_lack(rest, '/');
        assert(directory == path.take(directory.len() as int));
    }
    if directory.len() < path.len() && directory.is_prefix_of(path) {
        let tail = path.skip(directory.len() as int);
        assert forall|i: int| 0 <= i < tail.len() implies text::lacks(#[trigger] tail[i], '/') by {
            assert(tail[i] == path[i + directory.len()]);
        }
        text::lemma_pieces_of_joined(tail, '/');
        let t = text::joined(tail, seq!['/']);
        text::lemma_pieces_divide(d, t, '/');
        assert(directory + tail == path);
        text::lemma_join_pieces(d + seq!['/'] + t, '/');
        assert(p == d + seq!['/'] + t);
        assert(d == p.take(d.len() as int));
    }
}

/// Overlap of lists is the same from either side.
pub proof fn overlap_is_symmetric(left: Seq<Seq<char>>, right: Seq<Seq<char>>)
    ensures
        lists_overlap(left, right) == lists_overlap(right, left),
{
    if lists_overlap(left, right) {
        let (i, j) = choose|i: int, j: int|
            0 <= i < left.len() && 0 <= j < right.len() && overlapping(
                #[trigger] left[i],
                #[trigger] right[j],
            );
        assert(overlapping(right[j], left[i]));
    }
    if lists_overlap(right, left) {
        let (i, j) = choose|i: int, j: int|
            0 <= i < right.len() && 0 <= j < left.len() && overlapping(
                #[trigger] right[i],
                #[trigger] left[j],
            );
        assert(overlapping(left[j], right[i]));
    }
}

/// A list that is not empty overlaps itself.
pub proof fn overlap_is_reflexive(list: Seq<Seq<char>>)
    requires
        list.len() > 0,
    ensures
        lists_overlap(list, list),
{
    assert(overlapping(list[0], list[0]));
}

} // verus!
