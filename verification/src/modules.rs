//! Where the modules that a program imports are found: below the directory of
//! the program, in files whose extension may be left out.
use vstd::prelude::*;
use crate::ast::ExprView;
use crate::codegen::{Context, FileView, State, empty_state, find_file, is_extension, load_module};
use crate::compiler::ModuleFile;
use crate::text::{cat2, cat3, chars_of, text_eq, text_of};
use crate::views::{group_views, views};

verus! {

broadcast use group_views;

/// The end of the last name among the first `n` characters of a path; slashes
/// and single dots behind it do not count.
pub open spec fn path_end(path: Seq<char>, n: int) -> int
    decreases n,
{
    if n <= 0 || n > path.len() {
        0
    } else if path[n - 1] == '/' {
        path_end(path, n - 1)
    } else if path[n - 1] == '.' && (n == 1 || path[n - 2] == '/') {
        path_end(path, n - 1)
    } else {
        n
    }
}

/// The start of the name that ends at `n`.
pub open spec fn name_start(path: Seq<char>, n: int) -> int
    decreases n,
{
    if n <= 0 || n > path.len() {
        0
    } else if path[n - 1] == '/' {
        n
    } else {
        name_start(path, n - 1)
    }
}

/// The last name of a path.
pub open spec fn last_name(path: Seq<char>) -> Seq<char> {
    let end = path_end(path, path.len() as int);
    path.subrange(name_start(path, end), end)
}

/// The position of the last dot among the first `n` characters of a name; a dot
/// in front of the name does not count, and 0 stands for none.
pub open spec fn last_dot(name: Seq<char>, n: int) -> int
    decreases n,
{
    if n <= 1 || n > name.len() {
        0
    } else if name[n - 1] == '.' {
        n - 1
    } else {
        last_dot(name, n - 1)
    }
}

/// Whether a name has an extension.
pub open spec fn extended(name: Seq<char>) -> bool {
    name != ".."@ && last_dot(name, name.len() as int) > 0
}

/// A name without its extension.
pub open spec fn stem(name: Seq<char>) -> Seq<char> {
    if extended(name) {
        name.take(last_dot(name, name.len() as int))
    } else {
        name
    }
}

/// The path from the module root to the file that an import asks for: an
/// omitted extension is `.l0`. A path without any name stands for the root,
/// whose own extension is replaced.
pub open spec fn candidate(root: Seq<Seq<char>>, requested: Seq<char>) -> Seq<char> {
    let end = path_end(requested, requested.len() as int);
    let name = last_name(requested);
    if end == 0 {
        if root.len() == 0 {
            requested
        } else {
            "../"@ + stem(root.last()) + ".l0"@
        }
    } else if name == ".."@ || extended(name) {
        requested
    } else {
        requested.take(end) + ".l0"@
    }
}

/// Whether a path lies below the module root, by their names from the top.
pub open spec fn lies_below(root: Seq<Seq<char>>, path: Seq<Seq<char>>) -> bool {
    root.len() <= path.len() && path.take(root.len() as int) == root
}

/// The text of a path, from its names from the top.
pub open spec fn path_text(names: Seq<Seq<char>>) -> Seq<char>
    decreases names.len(),
{
    if names.len() == 0 {
        "/"@
    } else if names.len() == 1 {
        "/"@ + names[0]
    } else {
        path_text(names.drop_last()) + "/"@ + names.last()
    }
}

/// What becomes of an import: whether its path is absolute, the names of the
/// file that it leads to or why it leads to none, the names of the module root,
/// and the text of the file or why it cannot be read.
pub open spec fn verdict(
    absolute: bool,
    canonical: Result<Seq<Seq<char>>, Seq<char>>,
    root: Seq<Seq<char>>,
    source: Result<Seq<char>, Seq<char>>,
) -> FileView {
    if absolute {
        FileView::Absolute
    } else {
        match canonical {
            Err(reason) => FileView::Unresolved(reason),
            Ok(names) => if lies_below(root, names) {
                FileView::Found { id: path_text(names), source }
            } else {
                FileView::Escapes
            },
        }
    }
}

/// The names of a file, or why there is none.
pub open spec fn names_of(canonical: Result<Vec<String>, String>) -> Result<
    Seq<Seq<char>>,
    Seq<char>,
> {
    match canonical {
        Ok(names) => Ok(views(names@)),
        Err(reason) => Err(reason@),
    }
}

/// The text of a file, or why it cannot be read.
pub open spec fn content_of(source: Result<String, String>) -> Result<Seq<char>, Seq<char>> {
    match source {
        Ok(text) => Ok(text@),
        Err(reason) => Err(reason@),
    }
}

fn find_path_end(path: &Vec<char>) -> (r: usize)
    ensures
        r == path_end(path@, path@.len() as int),
        r <= path@.len(),
{
    let mut n: usize = path.len();
    while n > 0 && (path[n - 1] == '/' || (path[n - 1] == '.' && (n == 1 || path[n - 2] == '/')))
        invariant
            n <= path@.len(),
            path_end(path@, path@.len() as int) == path_end(path@, n as int),
        decreases n,
    {
        n -= 1;
    }
    n
}

fn find_name_start(path: &Vec<char>, end: usize) -> (r: usize)
    requires
        end <= path@.len(),
    ensures
        r == name_start(path@, end as int),
        r <= end,
{
    let mut n: usize = end;
    while n > 0 && path[n - 1] != '/'
        invariant
            n <= end <= path@.len(),
            name_start(path@, end as int) == name_start(path@, n as int),
        decreases n,
    {
        n -= 1;
    }
    n
}

fn find_last_dot(name: &Vec<char>) -> (r: usize)
    ensures
        r == last_dot(name@, name@.len() as int),
        r <= name@.len(),
{
    let mut n: usize = name.len();
    while n > 1 && name[n - 1] != '.'
        invariant
            n <= name@.len(),
            last_dot(name@, name@.len() as int) == last_dot(name@, n as int),
        decreases n,
    {
        n -= 1;
    }
    if n > 1 {
        n - 1
    } else {
        0
    }
}

/// A name without its extension, and whether it has one.
fn split_name(name: &str) -> (r: (String, bool))
    ensures
        r.0@ == stem(name@),
        r.1 == extended(name@),
{
    let chars = chars_of(name);
    let dot: usize = find_last_dot(&chars);
    if dot == 0 || text_eq(name, "..") {
        assert(chars@.subrange(0, chars@.len() as int) =~= name@);
        return (text_of(chars.as_slice(), 0, chars.len()), false);
    }
    assert(chars@.subrange(0, dot as int) =~= name@.take(dot as int));
    (text_of(chars.as_slice(), 0, dot), true)
}

/// The path from the module root to the file that an import asks for.
pub fn module_candidate(root: &Vec<String>, requested: &str) -> (r: String)
    ensures
        r@ == candidate(views(root@), requested@),
{
    let chars = chars_of(requested);
    let end: usize = find_path_end(&chars);
    if end == 0 {
        if root.len() == 0 {
            return requested.to_string();
        }
        let last: usize = root.len() - 1;
        let (stem, _) = split_name(root[last].as_str());
        assert(views(root@).last() == root@[last as int]@);
        return cat3("../", stem.as_str(), ".l0");
    }
    let start: usize = find_name_start(&chars, end);
    let name = text_of(chars.as_slice(), start, end);
    let (_, extended) = split_name(name.as_str());
    if extended || text_eq(name.as_str(), "..") {
        requested.to_string()
    } else {
        assert(chars@.subrange(0, end as int) =~= requested@.take(end as int));
        cat2(text_of(chars.as_slice(), 0, end).as_str(), ".l0")
    }
}

fn is_below(root: &Vec<String>, path: &Vec<String>) -> (r: bool)
    ensures
        r == lies_below(views(root@), views(path@)),
{
    if root.len() > path.len() {
        return false;
    }
    let ghost start = views(path@).take(root@.len() as int);
    let mut k: usize = 0;
    while k < root.len()
        invariant
            k <= root@.len() <= path@.len(),
            start == views(path@).take(root@.len() as int),
            forall|j: int| 0 <= j < k ==> #[trigger] start[j] == views(root@)[j],
        decreases root@.len() - k,
    {
        assert(start[k as int] == path@[k as int]@);
        assert(views(root@)[k as int] == root@[k as int]@);
        if !text_eq(path[k].as_str(), root[k].as_str()) {
            return false;
        }
        k += 1;
    }
    assert(start =~= views(root@));
    true
}

fn join_names(names: &Vec<String>) -> (r: String)
    ensures
        r@ == path_text(views(names@)),
{
    if names.len() == 0 {
        return "/".to_string();
    }
    let ghost all = views(names@);
    assert(all[0] == names@[0]@);
    let mut out = cat2("/", names[0].as_str());
    let mut k: usize = 1;
    assert(all.take(1) =~= seq![all[0]]);
    while k < names.len()
        invariant
            1 <= k <= names@.len(),
            all == views(names@),
            out@ == path_text(all.take(k as int)),
        decreases names@.len() - k,
    {
        assert(all[k as int] == names@[k as int]@);
        assert(all.take(k + 1).drop_last() =~= all.take(k as int));
        out = cat3(out.as_str(), "/", names[k].as_str());
        k += 1;
    }
    assert(all.take(all.len() as int) =~= all);
    out
}

/// What becomes of an import.
pub fn module_file(
    absolute: bool,
    canonical: Result<Vec<String>, String>,
    root: &Vec<String>,
    source: Result<String, String>,
) -> (r: ModuleFile)
    ensures
        r@ == verdict(absolute, names_of(canonical), views(root@), content_of(source)),
{
    if absolute {
        return ModuleFile::Absolute;
    }
    match canonical {
        Err(reason) => ModuleFile::Unresolved(reason),
        Ok(names) => if is_below(root, &names) {
            ModuleFile::Found { id: join_names(&names), source }
        } else {
            ModuleFile::Escapes
        },
    }
}

/// An import without an extension asks for a file with the extension `.l0`.
pub proof fn omitted_extensions_are_added(root: Seq<Seq<char>>, requested: Seq<char>)
    requires
        requested.len() > 0,
        requested.last() != '/',
        !last_name(requested).contains('.'),
        path_end(requested, requested.len() as int) == requested.len(),
    ensures
        candidate(root, requested) == requested + ".l0"@,
{
    let name = last_name(requested);
    lemma_no_dot(name, name.len() as int);
    reveal_strlit("..");
    assert(name != ".."@) by {
        if name == ".."@ {
            assert(name[0] == '.');
        }
    }
    assert(requested.take(requested.len() as int) =~= requested);
}

proof fn lemma_no_dot(name: Seq<char>, n: int)
    requires
        !name.contains('.'),
        n <= name.len(),
    ensures
        last_dot(name, n) == 0,
    decreases n,
{
    if n > 1 {
        assert(name[n - 1] != '.');
        lemma_no_dot(name, n - 1);
    }
}

/// An import that names an extension asks for the file as it is named.
pub proof fn named_extensions_are_kept(root: Seq<Seq<char>>, requested: Seq<char>)
    requires
        path_end(requested, requested.len() as int) > 0,
        extended(last_name(requested)),
    ensures
        candidate(root, requested) == requested,
{
}

/// Whether every module that is known is kept under its own name.
pub open spec fn filed(c: State) -> bool {
    forall|id: Seq<char>| #[trigger] c.artifacts.contains_key(id) ==> c.artifacts[id].id == id
}

/// Modules are kept under their own names, from the start and by every import.
pub proof fn modules_are_filed(ctx: Context, c: State, path: Seq<char>, node: ExprView)
    requires
        filed(c),
    ensures
        filed(empty_state()),
        load_module(ctx, c, path, node) matches Ok((c1, _)) ==> filed(c1),
{
}

/// A module that was loaded from a file lies below the module root, under the
/// name of its file; an absolute path, and a path that leads out of the root,
/// are refused.
pub proof fn loaded_modules_lie_below_the_root(
    ctx: Context,
    c: State,
    path: Seq<char>,
    node: ExprView,
    absolute: bool,
    canonical: Result<Seq<Seq<char>>, Seq<char>>,
    root: Seq<Seq<char>>,
    source: Result<Seq<char>, Seq<char>>,
)
    requires
        !is_extension(path),
        0 <= find_file(ctx.files, path, 0) < ctx.files.len(),
        ctx.files[find_file(ctx.files, path, 0)].1 == verdict(absolute, canonical, root, source),
        filed(c),
    ensures
        load_module(ctx, c, path, node) matches Ok((_, artifact)) ==> {
            &&& ctx.rooted
            &&& !absolute
            &&& canonical matches Ok(names) && lies_below(root, names) && artifact.id == path_text(
                names,
            )
        },
        !ctx.rooted || absolute || (canonical matches Ok(names) && !lies_below(root, names))
            ==> load_module(ctx, c, path, node) is Err && load_module(
            ctx,
            c,
            path,
            node,
        )->Err_0 is Type,
{
}

} // verus!
