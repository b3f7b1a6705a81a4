//! Repositories: what the runs of Git say of them, and how the place of a command is kept.
use vstd::prelude::*;
use vstd::utf8;

use crate::bootstrap;
use crate::bootstrap::{BootstrapErrorView, GitOutputView, RepositoryContextView};
use crate::cli::daemon;
use crate::laws::paths;
use crate::paths::PathStyle;
use crate::sequences;
use crate::text;

verus! {

/// What a run printed is read without the white space around it.
pub proof fn outputs_are_read_without_their_margin(
    before: Seq<char>,
    said: Seq<char>,
    after: Seq<char>,
)
    requires
        text::is_blank(before),
        text::is_blank(after),
        said.len() > 0,
        !text::is_white(said[0]),
        !text::is_white(said.last()),
    ensures
        bootstrap::printed(utf8::encode_utf8(before + said + after)) == said,
{
    utf8::encode_utf8_valid_utf8(before + said + after);
    utf8::encode_utf8_decode_utf8(before + said + after);
    text::lemma_trimmed_already(said);
    paths::lemma_trimmed_inside(before, said, after);
}

/// A run that succeeds says what it printed. One that fails says nothing where it asked for the
/// origin, or for the current commit and ended with 1; elsewhere it is told by its complaint.
pub proof fn runs_say_what_they_printed(arguments: Seq<Seq<char>>, output: GitOutputView)
    ensures
        ({
            let said = bootstrap::printed(output.stdout);
            let complaint = Err::<Option<Seq<char>>, BootstrapErrorView>(
                BootstrapErrorView::Git(bootstrap::printed(output.stderr)),
            );
            let origin = seq!["remote"@, "get-url"@, "origin"@];
            &&& output.success ==> bootstrap::git_said(arguments, output) == Ok::<
                Option<Seq<char>>,
                BootstrapErrorView,
            >(Some(said))
            &&& !output.success && arguments == origin ==> bootstrap::git_said(arguments, output)
                == Ok::<Option<Seq<char>>, BootstrapErrorView>(None)
            &&& !output.success && arguments != origin ==> bootstrap::git_said(arguments, output)
                == complaint
            &&& output.success ==> bootstrap::git_must_say(arguments, output) == Ok::<
                Seq<char>,
                BootstrapErrorView,
            >(said)
            &&& !output.success && arguments != origin ==> bootstrap::git_must_say(
                arguments,
                output,
            ) == Err::<Seq<char>, BootstrapErrorView>(
                BootstrapErrorView::Git(bootstrap::printed(output.stderr)),
            )
            &&& !output.success && arguments == origin ==> bootstrap::git_must_say(
                arguments,
                output,
            ) == Err::<Seq<char>, BootstrapErrorView>(
                BootstrapErrorView::Git("git remote get-url origin returned no output"@),
            )
            &&& output.success ==> bootstrap::head_said(output) == Ok::<
                Option<Seq<char>>,
                BootstrapErrorView,
            >(Some(said))
            &&& !output.success && output.code == Some(1i32) ==> bootstrap::head_said(output)
                == Ok::<Option<Seq<char>>, BootstrapErrorView>(None)
            &&& !output.success && output.code != Some(1i32) ==> bootstrap::head_said(output)
                == complaint
        }),
{
    reveal_strlit("remote");
    reveal_strlit("get-url");
    reveal_strlit("origin");
    reveal_strlit(" ");
    reveal_strlit("git ");
    reveal_strlit(" returned no output");
    reveal_strlit("git remote get-url origin returned no output");
    let origin = seq!["remote"@, "get-url"@, "origin"@];
    let two = seq!["remote"@, "get-url"@];
    let one = seq!["remote"@];
    assert(origin.drop_last() =~= two);
    assert(two.drop_last() =~= one);
    assert(text::joined(one, " "@) == "remote"@);
    assert(text::joined(two, " "@) == "remote"@ + " "@ + "get-url"@);
    assert(text::joined(origin, " "@) == "remote"@ + " "@ + "get-url"@ + " "@ + "origin"@);
    assert("git "@ + text::joined(origin, " "@) + " returned no output"@
        =~= "git remote get-url origin returned no output"@);
}

/// A repository is known by its root, its current commit where there is one, and its origin; without
/// an origin by the name of its directory. The first of them that fails is told.
pub proof fn repositories_are_known_by_their_runs(
    toplevel: GitOutputView,
    head: GitOutputView,
    origin: GitOutputView,
    name: Option<Seq<char>>,
)
    ensures
        ({
            let found = bootstrap::discovered(toplevel, head, origin, name);
            let unborn = !head.success && head.code == Some(1i32);
            let identity = bootstrap::identity_of(bootstrap::printed(origin.stdout));
            let named = name is Some && name->0.len() > 0;
            &&& !toplevel.success ==> found == Err::<RepositoryContextView, BootstrapErrorView>(
                BootstrapErrorView::Git(bootstrap::printed(toplevel.stderr)),
            )
            &&& toplevel.success && !head.success && !unborn ==> found == Err::<
                RepositoryContextView,
                BootstrapErrorView,
            >(BootstrapErrorView::Git(bootstrap::printed(head.stderr)))
            &&& toplevel.success && (head.success || unborn) ==> {
                &&& origin.success && identity is Err ==> found == Err::<
                    RepositoryContextView,
                    BootstrapErrorView,
                >(identity->Err_0)
                &&& !origin.success && !named ==> found == Err::<
                    RepositoryContextView,
                    BootstrapErrorView,
                >(BootstrapErrorView::Git("repository root has no usable directory name"@))
                &&& (origin.success && identity is Ok) || (!origin.success && named) ==> {
                    &&& found is Ok
                    &&& found->Ok_0.root == bootstrap::printed(toplevel.stdout)
                    &&& head.success ==> found->Ok_0.revision == Some(
                        bootstrap::printed(head.stdout),
                    )
                    &&& unborn ==> found->Ok_0.revision is None
                    &&& origin.success ==> found->Ok_0.identity == identity->Ok_0
                    &&& !origin.success ==> found->Ok_0.identity == seq!['l', 'o', 'c', 'a', 'l', '/']
                        + name->0
                }
            }
        }),
{
    reveal_strlit("local/");
    assert("local/"@ =~= seq!['l', 'o', 'c', 'a', 'l', '/']);
    let asked = seq!["rev-parse"@, "--show-toplevel"@];
    assert(asked.len() != seq!["remote"@, "get-url"@, "origin"@].len());
}

/// The last name of a path is the name of what it leads to, whatever separates it and whatever
/// separators or single dots stand behind it; two dots name nothing.
pub proof fn directories_are_named_last(
    path: Seq<char>,
    separator: char,
    name: Seq<char>,
    style: PathStyle,
)
    requires
        separator == '/' || (separator == '\\' && style is Backslash),
    ensures
        paths::is_plain(name, style) ==> bootstrap::file_name(path + seq![separator] + name, style)
            == Some(name),
        bootstrap::file_name(path + seq![separator], style) == bootstrap::file_name(path, style),
        bootstrap::file_name(path + seq![separator, '.'], style) == bootstrap::file_name(
            path,
            style,
        ),
        bootstrap::file_name(path + seq![separator, '.', '.'], style) is None,
        bootstrap::file_name(Seq::empty(), style) is None,
        paths::is_plain(name, style) && !(style is Backslash && name.len() >= 2 && name[1] == ':')
            ==> bootstrap::file_name(name, style) == Some(name),
{
    let none = Seq::<char>::empty();
    let dot = seq!['.'];
    let dots = seq!['.', '.'];
    reveal_strlit(".");
    reveal_strlit("..");
    assert("."@ =~= dot);
    assert(".."@ =~= dots);
    let p = bootstrap::names_entry();
    if paths::is_plain(name, style) {
        lemma_name_behind(path, separator, name, style);
        if !(style is Backslash && name.len() >= 2 && name[1] == ':') {
            lemma_first_name(name, style);
        }
    }
    lemma_name_behind(path, separator, none, style);
    lemma_name_behind(path, separator, dot, style);
    lemma_name_behind(path, separator, dots, style);
    assert(path + seq![separator] + none =~= path + seq![separator]);
    assert(path + seq![separator] + dot =~= path + seq![separator, '.']);
    assert(path + seq![separator] + dots =~= path + seq![separator, '.', '.']);
    assert(style.slashed(none) =~= none);
    text::lemma_one_piece(none, '/');
    sequences::lemma_filter_none(seq![none], p);
}

/// The names of a path behind its drive.
spec fn names_of(path: Seq<char>, style: PathStyle) -> Seq<Seq<char>> {
    let whole = style.slashed(path);
    text::pieces(
        if style.has_drive(path) {
            whole.skip(2)
        } else {
            whole
        },
        '/',
    ).filter(bootstrap::names_entry())
}

proof fn lemma_name_behind(path: Seq<char>, separator: char, name: Seq<char>, style: PathStyle)
    requires
        separator == '/' || (separator == '\\' && style is Backslash),
        forall|i: int|
            0 <= i < name.len() ==> #[trigger] name[i] != '/' && (style is Backslash ==> name[i]
                != '\\'),
    ensures
        names_of(path + seq![separator] + name, style) == (if name.len() > 0 && name != "."@ {
            names_of(path, style).push(name)
        } else {
            names_of(path, style)
        }),
{
    let longer = path + seq![separator] + name;
    let p = bootstrap::names_entry();
    assert(style.slashed(longer) =~= style.slashed(path) + seq!['/'] + name);
    assert(style.has_drive(longer) == style.has_drive(path)) by {
        if path.len() >= 2 {
            assert(longer[0] == path[0] && longer[1] == path[1]);
        } else if path.len() == 1 {
            assert(longer[1] == separator);
        } else if longer.len() >= 2 {
            assert(longer[0] == separator);
        }
    }
    let from = if style.has_drive(path) {
        2int
    } else {
        0
    };
    let before = style.slashed(path).skip(from);
    assert(style.slashed(path).skip(0) =~= style.slashed(path));
    assert(style.slashed(longer).skip(0) =~= style.slashed(longer));
    assert(style.slashed(longer).skip(from) =~= before + seq!['/'] + name);
    text::lemma_pieces_divide(before, name, '/');
    text::lemma_one_piece(name, '/');
    let all = text::pieces(before + seq!['/'] + name, '/');
    assert(all =~= text::pieces(before, '/').push(name));
    reveal(Seq::filter);
    assert(all.drop_last() =~= text::pieces(before, '/'));
    assert(name.len() == 0 ==> name =~= Seq::<char>::empty());
}

proof fn lemma_first_name(name: Seq<char>, style: PathStyle)
    requires
        paths::is_plain(name, style),
        !(style is Backslash && name.len() >= 2 && name[1] == ':'),
    ensures
        bootstrap::file_name(name, style) == Some(name),
{
    reveal_strlit(".");
    reveal_strlit("..");
    assert("."@ =~= seq!['.']);
    assert(".."@ =~= seq!['.', '.']);
    assert(style.slashed(name) =~= name);
    text::lemma_one_piece(name, '/');
    reveal(Seq::filter);
    assert(seq![name].drop_last() =~= Seq::<Seq<char>>::empty());
    assert(seq![name].filter(bootstrap::names_entry()) =~= seq![name]);
}

/// A selection is read without the white space around it; nothing, or white space alone, selects
/// nothing.
pub proof fn selections_are_read_without_their_margin(
    before: Seq<char>,
    scope: Seq<char>,
    after: Seq<char>,
)
    requires
        text::is_blank(before),
        text::is_blank(after),
        scope.len() > 0,
        !text::is_white(scope[0]),
        !text::is_white(scope.last()),
    ensures
        bootstrap::selected(Some(before + scope + after)) == Ok::<Seq<char>, BootstrapErrorView>(
            scope,
        ),
        bootstrap::selected(Some(before)) == Err::<Seq<char>, BootstrapErrorView>(
            BootstrapErrorView::MissingSelection,
        ),
        bootstrap::selected(None) == Err::<Seq<char>, BootstrapErrorView>(
            BootstrapErrorView::MissingSelection,
        ),
        bootstrap::selection_file(scope) == scope + seq!['\n'],
{
    reveal_strlit("\n");
    assert("\n"@ =~= seq!['\n']);
    let all = before + scope + after;
    assert(all[before.len() as int] == scope[0]);
    text::lemma_trimmed_already(scope);
    paths::lemma_trimmed_inside(before, scope, after);
}

/// A file stands below its directory behind one separator, that of the style, unless the directory
/// ends with one, is nothing, or is a drive alone.
pub proof fn files_stand_below_their_directory(root: Seq<char>, file: Seq<char>, style: PathStyle)
    ensures
        ({
            let joined = daemon::path_below(root, file, style);
            let drive = style is Backslash && root.len() == 2 && root[1] == ':' && (('a' <= root[0]
                && root[0] <= 'z') || ('A' <= root[0] && root[0] <= 'Z'));
            let open = root.len() == 0 || root.last() == '/' || (style is Backslash && root.last()
                == '\\') || drive;
            &&& open ==> joined == root + file
            &&& !open && style is Backslash ==> joined == root + seq!['\\'] + file
            &&& !open && !(style is Backslash) ==> joined == root + seq!['/'] + file
        }),
{
}

} // verus!
