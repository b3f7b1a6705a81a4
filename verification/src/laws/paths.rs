//! Paths: how the canonical form of a resource follows its path, segment by segment.
use vstd::prelude::*;

use crate::ordered;
use crate::paths::PathStyle;
use crate::resources;
use crate::text;

verus! {

/// Whether a segment is a name in a style: not empty, neither `.` nor `..`, and with nothing in it
/// that separates names there.
pub open spec fn is_plain(segment: Seq<char>, style: PathStyle) -> bool {
    &&& segment.len() > 0
    &&& segment != seq!['.']
    &&& segment != seq!['.', '.']
    &&& forall|i: int|
        0 <= i < segment.len() ==> #[trigger] segment[i] != '/' && (style is Backslash
            ==> segment[i] != '\\')
}

/// Whether a path can be gone on from: it has no white space at its ends, does not begin with a
/// slash, and with neither a backslash nor a drive where they count.
pub open spec fn is_relative(path: Seq<char>, style: PathStyle) -> bool {
    &&& path.len() > 0
    &&& !text::is_white(path[0])
    &&& !text::is_white(path.last())
    &&& path[0] != '/'
    &&& style is Backslash ==> path[0] != '\\' && !(path.len() >= 2 && path[1] == ':' && (('a'
        <= path[0] && path[0] <= 'z') || ('A' <= path[0] && path[0] <= 'Z')))
}

proof fn lemma_relative(path: Seq<char>, style: PathStyle)
    requires
        is_relative(path, style),
    ensures
        ({
            let whole = style.slashed(path);
            resources::canonical(path, style) == (match resources::walked(
                text::pieces(whole, '/'),
            ) {
                None => Err::<Option<Seq<char>>, Seq<char>>(
                    "resource must not escape the repository root"@,
                ),
                Some(at) => if at.len() == 0 {
                    Ok(None)
                } else {
                    Ok(Some(text::joined(at, seq!['/'])))
                },
            })
        }),
{
    text::lemma_trimmed_already(path);
    reveal_strlit("/");
    assert("/"@ =~= seq!['/']);
    let whole = style.slashed(path);
    assert(whole[0] != '/');
    assert(whole.len() >= 2 ==> whole[0] == path[0] || whole[0] == '/');
}

proof fn lemma_goes_on(path: Seq<char>, segment: Seq<char>, style: PathStyle)
    requires
        text::lacks(segment, '/'),
        style is Backslash ==> text::lacks(segment, '\\'),
    ensures
        ({
            let longer = path + seq!['/'] + segment;
            let before = text::pieces(style.slashed(path), '/');
            let all = text::pieces(style.slashed(longer), '/');
            &&& all == before.push(segment)
            &&& resources::walked(all) == (match resources::walked(before) {
                Some(at) => resources::step(at, segment),
                None => None,
            })
        }),
{
    let longer = path + seq!['/'] + segment;
    let before = text::pieces(style.slashed(path), '/');
    let all = text::pieces(style.slashed(longer), '/');
    assert forall|i: int| 0 <= i < segment.len() implies #[trigger] segment[i] != '/' && (style
        is Backslash ==> segment[i] != '\\') by {}
    assert(style.slashed(longer) =~= style.slashed(path) + seq!['/'] + segment);
    text::lemma_pieces_divide(style.slashed(path), segment, '/');
    text::lemma_one_piece(segment, '/');
    assert(all =~= before.push(segment));
    assert(all.drop_last() =~= before);
}

proof fn lemma_dots()
    ensures
        "."@ == seq!['.'],
        ".."@ == seq!['.', '.'],
{
    reveal_strlit(".");
    reveal_strlit("..");
    assert("."@ =~= seq!['.']);
    assert(".."@ =~= seq!['.', '.']);
}

/// A path begins where it is: a name leads to itself, a dot or nothing nowhere, and two dots above
/// the root, which is refused.
pub proof fn paths_begin_at_the_root(segment: Seq<char>, style: PathStyle)
    ensures
        is_plain(segment, style) && is_relative(segment, style) ==> resources::canonical(
            segment,
            style,
        ) == Ok::<Option<Seq<char>>, Seq<char>>(Some(segment)),
        resources::canonical(Seq::empty(), style) == Ok::<Option<Seq<char>>, Seq<char>>(None),
        resources::canonical(seq!['.'], style) == Ok::<Option<Seq<char>>, Seq<char>>(None),
        resources::canonical(seq!['.', '.'], style) == Err::<Option<Seq<char>>, Seq<char>>(
            "resource must not escape the repository root"@,
        ),
{
    lemma_dots();
    let none = Seq::<char>::empty();
    let dot = seq!['.'];
    let dots = seq!['.', '.'];
    assert(text::trimmed(none) =~= none);
    assert(style.slashed(none) =~= none);
    text::lemma_one_piece(none, '/');
    lemma_alone(none);
    assert(style.slashed(dot) =~= dot);
    assert(style.slashed(dots) =~= dots);
    text::lemma_one_piece(dot, '/');
    text::lemma_one_piece(dots, '/');
    lemma_relative(dot, style);
    lemma_relative(dots, style);
    lemma_alone(dot);
    lemma_alone(dots);
    if is_plain(segment, style) && is_relative(segment, style) {
        assert(style.slashed(segment) =~= segment);
        text::lemma_one_piece(segment, '/');
        lemma_relative(segment, style);
        lemma_alone(segment);
        assert(Seq::<Seq<char>>::empty().push(segment) =~= seq![segment]);
    }
}

proof fn lemma_alone(segment: Seq<char>)
    ensures
        resources::walked(seq![segment]) == resources::step(Seq::empty(), segment),
{
    assert(seq![segment].drop_last() =~= Seq::<Seq<char>>::empty());
    assert(resources::walked(seq![segment].drop_last()) == Some(Seq::<Seq<char>>::empty()));
    assert(seq![segment].last() == segment);
}

/// A path goes on segment by segment: a name is added behind a slash, a dot or nothing leads nowhere,
/// two dots undo the name before them, and above the root is refused, whatever comes then.
pub proof fn paths_go_on_by_segments(path: Seq<char>, segment: Seq<char>, style: PathStyle)
    requires
        is_relative(path, style),
    ensures
        ({
            let here = resources::canonical(path, style);
            let escape = Err::<Option<Seq<char>>, Seq<char>>(
                "resource must not escape the repository root"@,
            );
            let next = resources::canonical(path + seq!['/'] + segment, style);
            &&& here is Ok || here == escape
            &&& is_plain(segment, style) && !text::is_white(segment.last()) ==> {
                &&& here == Ok::<Option<Seq<char>>, Seq<char>>(None) ==> next == Ok::<
                    Option<Seq<char>>,
                    Seq<char>,
                >(Some(segment))
                &&& here is Ok && here->Ok_0 is Some ==> next == Ok::<
                    Option<Seq<char>>,
                    Seq<char>,
                >(Some(here->Ok_0->0 + seq!['/'] + segment))
                &&& here is Err ==> next == escape
                &&& resources::canonical(
                    path + seq!['/'] + segment + seq!['/'] + seq!['.', '.'],
                    style,
                ) == here
            }
            &&& segment == Seq::<char>::empty() || segment == seq!['.'] ==> next == here
            &&& segment == seq!['.', '.'] && here == Ok::<Option<Seq<char>>, Seq<char>>(None)
                ==> next == escape
            &&& segment == seq!['.', '.'] && here is Err ==> next == escape
        }),
{
    lemma_dots();
    lemma_relative(path, style);
    let whole = style.slashed(path);
    let segments = text::pieces(whole, '/');
    let longer = path + seq!['/'] + segment;
    let none = Seq::<char>::empty();
    text::lemma_pieces_lack(whole, '/');
    if is_plain(segment, style) && !text::is_white(segment.last()) {
        assert(text::lacks(segment, '/'));
        assert(is_relative(longer, style)) by {
            assert(longer[0] == path[0]);
            assert(longer.last() == segment.last());
            if path.len() >= 2 {
                assert(longer[1] == path[1]);
            } else {
                assert(longer[1] == '/');
            }
        }
        lemma_goes_on(path, segment, style);
        lemma_relative(longer, style);
        if resources::walked(segments) is Some {
            let at = resources::walked(segments)->0;
            assert(at.push(segment).drop_last() =~= at);
            assert(at.push(segment).last() == segment);
            if at.len() == 0 {
                assert(at.push(segment) =~= seq![segment]);
            }
        }
        let up = seq!['.', '.'];
        let back = longer + seq!['/'] + up;
        assert(is_relative(back, style)) by {
            assert(back[0] == longer[0] && back[1] == longer[1]);
            assert(back.last() == '.');
        }
        lemma_goes_on(longer, up, style);
        lemma_relative(back, style);
    }
    if segment == none {
        let bare = path + seq!['/'];
        assert(longer =~= bare);
        assert(is_relative(bare, style)) by {
            assert(bare[0] == path[0]);
            assert(bare.last() == '/');
            if path.len() >= 2 {
                assert(bare[1] == path[1]);
            }
        }
        lemma_goes_on(path, none, style);
        lemma_relative(bare, style);
    }
    if segment == seq!['.'] || segment == seq!['.', '.'] {
        assert(is_relative(longer, style)) by {
            assert(longer[0] == path[0]);
            assert(longer.last() == '.');
            if path.len() >= 2 {
                assert(longer[1] == path[1]);
            } else {
                assert(longer[1] == '/');
            }
        }
        lemma_goes_on(path, segment, style);
        lemma_relative(longer, style);
        if resources::walked(segments) is Some && segment == seq!['.', '.'] {
            lemma_walked_empty(segments);
        }
    }
}

proof fn lemma_walked_empty(segments: Seq<Seq<char>>)
    requires
        resources::walked(segments) is Some,
    ensures
        resources::walked(segments)->0.len() == 0 ==> resources::walked(segments)->0 == Seq::<
            Seq<char>,
        >::empty(),
{
    if resources::walked(segments)->0.len() == 0 {
        assert(resources::walked(segments)->0 =~= Seq::<Seq<char>>::empty());
    }
}

/// What begins at the root of the machine, or at a drive or a share where there are any, is refused;
/// white space around a path does not count; and a backslash separates names only where it does on
/// the machine.
pub proof fn paths_are_relative_to_the_repository(
    before: Seq<char>,
    path: Seq<char>,
    after: Seq<char>,
    style: PathStyle,
)
    requires
        text::is_blank(before),
        text::is_blank(after),
    ensures
        path.len() > 0 && path[0] == '/' ==> resources::canonical(path, style) == Err::<
            Option<Seq<char>>,
            Seq<char>,
        >("resource must be a repository-relative path"@),
        path.len() > 0 && style is Backslash && path[0] == '\\' ==> resources::canonical(path, style)
            == Err::<Option<Seq<char>>, Seq<char>>("resource must be a repository-relative path"@),
        path.len() >= 2 && style is Backslash && path[1] == ':' && (('a' <= path[0] && path[0]
            <= 'z') || ('A' <= path[0] && path[0] <= 'Z')) ==> resources::canonical(path, style)
            == Err::<Option<Seq<char>>, Seq<char>>("resource must be a repository-relative path"@),
        resources::canonical(before + path + after, style) == resources::canonical(path, style),
        resources::canonical(
            path.map_values(
                |c: char|
                    if c == '\\' {
                        '/'
                    } else {
                        c
                    },
            ),
            PathStyle::Backslash,
        ) == resources::canonical(path, PathStyle::Backslash),
{
    let (a, b) = crate::laws::texts::trimming_takes_white_space_alone(path);
    let t = text::trimmed(path);
    if path.len() > 0 && !text::is_white(path[0]) {
        assert(a == 0 && b > 0) by {
            if a > 0 {
                assert(text::is_white(path[0]));
            }
            if b == 0 {
                assert(text::is_white(path[0]));
            }
        }
        assert(t[0] == path[0]);
        if path.len() >= 2 && !text::is_white(path[1]) {
            if b == 1 {
                assert(text::is_white(path[1]));
            }
            assert(t[1] == path[1]);
        }
    }
    lemma_trimmed_inside(before, path, after);
    let f = |c: char|
        if c == '\\' {
            '/'
        } else {
            c
        };
    let mapped = path.map_values(f);
    lemma_trimmed_mapped(path);
    assert(PathStyle::Backslash.slashed(text::trimmed(mapped)) =~= PathStyle::Backslash.slashed(
        text::trimmed(path),
    ));
}

proof fn lemma_trim_front_more(before: Seq<char>, s: Seq<char>)
    requires
        text::is_blank(before),
    ensures
        text::trim_front(before + s) == text::trim_front(s),
    decreases before.len(),
{
    if before.len() == 0 {
        assert(before + s =~= s);
    } else {
        let rest = before.drop_first();
        assert(text::is_white(before[0]));
        assert forall|i: int| 0 <= i < rest.len() implies text::is_white(#[trigger] rest[i]) by {
            assert(rest[i] == before[i + 1]);
        }
        assert((before + s)[0] == before[0]);
        assert((before + s).drop_first() =~= rest + s);
        lemma_trim_front_more(rest, s);
    }
}

proof fn lemma_trim_back_more(s: Seq<char>, after: Seq<char>)
    requires
        text::is_blank(after),
    ensures
        text::trim_back(s + after) == text::trim_back(s),
    decreases after.len(),
{
    if after.len() == 0 {
        assert(s + after =~= s);
    } else {
        let rest = after.drop_last();
        assert(text::is_white(after[after.len() - 1]));
        assert forall|i: int| 0 <= i < rest.len() implies text::is_white(#[trigger] rest[i]) by {
            assert(rest[i] == after[i]);
        }
        assert((s + after).last() == after.last());
        assert((s + after).drop_last() =~= s + rest);
        lemma_trim_back_more(s, rest);
    }
}

proof fn lemma_trim_front_keeps(s: Seq<char>, after: Seq<char>)
    requires
        !text::is_blank(s),
    ensures
        text::trim_front(s + after) == text::trim_front(s) + after,
    decreases s.len(),
{
    if s.len() > 0 && text::is_white(s[0]) {
        let rest = s.drop_first();
        if text::is_blank(rest) {
            assert forall|i: int| 0 <= i < s.len() implies text::is_white(#[trigger] s[i]) by {
                if i > 0 {
                    assert(rest[i - 1] == s[i]);
                }
            }
        }
        assert((s + after)[0] == s[0]);
        assert((s + after).drop_first() =~= rest + after);
        lemma_trim_front_keeps(rest, after);
    } else {
        if s.len() > 0 {
            assert((s + after)[0] == s[0]);
        }
    }
}

/// White space around a text is trimmed with its own.
pub proof fn lemma_trimmed_inside(before: Seq<char>, s: Seq<char>, after: Seq<char>)
    requires
        text::is_blank(before),
        text::is_blank(after),
    ensures
        text::trimmed(before + s + after) == text::trimmed(s),
{
    assert(before + s + after =~= before + (s + after));
    lemma_trim_front_more(before, s + after);
    if text::is_blank(s) {
        let all = s + after;
        assert forall|i: int| 0 <= i < all.len() implies text::is_white(#[trigger] all[i]) by {
            if i < s.len() {
                assert(all[i] == s[i]);
            } else {
                assert(all[i] == after[i - s.len()]);
            }
        }
        text::lemma_trimmed_empty(all);
        text::lemma_trimmed_empty(s);
        assert(text::trimmed(all) =~= Seq::<char>::empty());
        assert(text::trimmed(s) =~= Seq::<char>::empty());
    } else {
        lemma_trim_front_keeps(s, after);
        lemma_trim_back_more(text::trim_front(s), after);
    }
}

proof fn lemma_trimmed_mapped(s: Seq<char>)
    ensures
        text::trimmed(s.map_values(
            |c: char|
                if c == '\\' {
                    '/'
                } else {
                    c
                },
        )) == text::trimmed(s).map_values(
            |c: char|
                if c == '\\' {
                    '/'
                } else {
                    c
                },
        ),
{
    let f = |c: char|
        if c == '\\' {
            '/'
        } else {
            c
        };
    lemma_trim_front_mapped(s, f);
    lemma_trim_back_mapped(text::trim_front(s), f);
}

proof fn lemma_trim_front_mapped(s: Seq<char>, f: spec_fn(char) -> char)
    requires
        forall|c: char| text::is_white(#[trigger] f(c)) == text::is_white(c),
    ensures
        text::trim_front(s.map_values(f)) == text::trim_front(s).map_values(f),
    decreases s.len(),
{
    if s.len() > 0 && text::is_white(s[0]) {
        assert(s.map_values(f).drop_first() =~= s.drop_first().map_values(f));
        lemma_trim_front_mapped(s.drop_first(), f);
    }
}

proof fn lemma_trim_back_mapped(s: Seq<char>, f: spec_fn(char) -> char)
    requires
        forall|c: char| text::is_white(#[trigger] f(c)) == text::is_white(c),
    ensures
        text::trim_back(s.map_values(f)) == text::trim_back(s).map_values(f),
    decreases s.len(),
{
    if s.len() > 0 && text::is_white(s.last()) {
        assert(s.map_values(f).drop_last() =~= s.drop_last().map_values(f));
        lemma_trim_back_mapped(s.drop_last(), f);
    }
}

/// A list of resources is refused exactly where one of them is, for the reason of the first that is;
/// otherwise it is read as the canonical forms of all, each once, in the order of texts.
pub proof fn lists_are_read_path_by_path(
    wanted: Seq<Seq<char>>,
    style: PathStyle,
    first: int,
    path: Seq<char>,
)
    ensures
        0 <= first < wanted.len() && resources::canonical(wanted[first], style) is Err && (forall|
            i: int,
        |
            0 <= i < first ==> resources::canonical(#[trigger] wanted[i], style) is Ok)
            ==> resources::normalized(wanted, style) == Err::<Seq<Seq<char>>, Seq<char>>(
            resources::canonical(wanted[first], style)->Err_0,
        ),
        (forall|i: int|
            0 <= i < wanted.len() ==> resources::canonical(#[trigger] wanted[i], style) is Ok)
            ==> resources::normalized(wanted, style) is Ok,
        resources::normalized(wanted, style) is Ok ==> {
            let list = resources::normalized(wanted, style)->Ok_0;
            &&& list.contains(path) <==> exists|i: int|
                0 <= i < wanted.len() && resources::canonical(#[trigger] wanted[i], style) == Ok::<
                    Option<Seq<char>>,
                    Seq<char>,
                >(Some(path))
            &&& forall|i: int, j: int|
                0 <= i < j < list.len() ==> text::text_before(#[trigger] list[i], #[trigger] list[j])
        },
{
    lemma_reads(wanted, style, first);
    if resources::normalized(wanted, style) is Ok {
        resources::normalized_lists_are_ordered(wanted, style, path);
        let list = resources::normalized(wanted, style)->Ok_0;
        assert forall|i: int, j: int| 0 <= i < j < list.len() implies text::text_before(
            #[trigger] list[i],
            #[trigger] list[j],
        ) by {
            assert(<String as ordered::Key>::before(list[i], list[j]));
        }
    }
}

proof fn lemma_reads(wanted: Seq<Seq<char>>, style: PathStyle, first: int)
    ensures
        0 <= first < wanted.len() && resources::canonical(wanted[first], style) is Err && (forall|
            i: int,
        |
            0 <= i < first ==> resources::canonical(#[trigger] wanted[i], style) is Ok)
            ==> resources::canonical_set(wanted, style) == Err::<Set<Seq<char>>, Seq<char>>(
            resources::canonical(wanted[first], style)->Err_0,
        ),
        (forall|i: int|
            0 <= i < wanted.len() ==> resources::canonical(#[trigger] wanted[i], style) is Ok)
            ==> resources::canonical_set(wanted, style) is Ok,
    decreases wanted.len(),
{
    if wanted.len() > 0 {
        let init = wanted.drop_last();
        let n = wanted.len() - 1;
        lemma_reads(init, style, first);
        assert(wanted.last() == wanted[n]);
        assert forall|i: int| 0 <= i < init.len() implies #[trigger] init[i] == wanted[i] by {}
        if forall|i: int|
            0 <= i < wanted.len() ==> resources::canonical(#[trigger] wanted[i], style) is Ok {
            assert forall|i: int| 0 <= i < init.len() implies resources::canonical(
                #[trigger] init[i],
                style,
            ) is Ok by {
                assert(init[i] == wanted[i]);
            }
            assert(resources::canonical(wanted[n], style) is Ok);
        }
        if 0 <= first < wanted.len() && forall|i: int|
            0 <= i < first ==> resources::canonical(#[trigger] wanted[i], style) is Ok {
            assert forall|i: int| 0 <= i < first && i < init.len() implies resources::canonical(
                #[trigger] init[i],
                style,
            ) is Ok by {
                assert(init[i] == wanted[i]);
            }
            if first < n {
                assert(init[first] == wanted[first]);
            } else {
                assert forall|i: int| 0 <= i < init.len() implies resources::canonical(
                    #[trigger] init[i],
                    style,
                ) is Ok by {
                    assert(init[i] == wanted[i]);
                }
            }
        }
    }
}

/// Two paths overlap exactly where they are the same or one begins with the other and a slash.
pub proof fn paths_overlap_inside_each_other(left: Seq<char>, right: Seq<char>)
    ensures
        resources::overlapping(left, right) <==> left == right || right.push('/').is_prefix_of(left)
            || left.push('/').is_prefix_of(right),
{
    lemma_inside(left, right);
    lemma_inside(right, left);
}

proof fn lemma_inside(path: Seq<char>, directory: Seq<char>)
    ensures
        resources::inside(path, directory) == directory.push('/').is_prefix_of(path),
{
    let d = directory.push('/');
    if resources::inside(path, directory) {
        assert(d =~= path.subrange(0, d.len() as int));
    }
    if d.is_prefix_of(path) {
        assert(d == path.subrange(0, d.len() as int));
        assert(path[directory.len() as int] == d[directory.len() as int]);
        assert(directory =~= path.subrange(0, directory.len() as int)) by {
            assert forall|i: int| 0 <= i < directory.len() implies directory[i] == path[i] by {
                assert(d[i] == path[i]);
            }
        }
    }
}

} // verus!
