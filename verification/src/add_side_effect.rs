//! Side-effect imports for the inline and hoist strategies.
//!
//! Relative imports of the module that resolve inside the source directory are
//! kept as bare side-effect imports (`import "./x";`) at the top of the root
//! module, so that bundlers still see the dependency edge.

use vstd::prelude::*;

use crate::code_move::views;
use crate::source_path::{join_paths, path_join};
use crate::text::{chars_eq, chars_of, concat3, contains_str, str_eq};

verus! {

/// One component of a path, as `std::path::Component` gives it.
#[derive(Debug, Clone, PartialEq, Eq)]
pub enum PathComponent {
    /// A Windows path prefix.
    Prefix(String),
    /// The root directory.
    RootDir,
    /// `.`
    CurDir,
    /// `..`
    ParentDir,
    /// A normal component.
    Normal(String),
}

/// The text-level value of a path component.
pub enum PathComponentView {
    Prefix(Seq<char>),
    RootDir,
    CurDir,
    ParentDir,
    Normal(Seq<char>),
}

impl PathComponent {
    pub open spec fn view(&self) -> PathComponentView {
        match self {
            PathComponent::Prefix(s) => PathComponentView::Prefix(s@),
            PathComponent::RootDir => PathComponentView::RootDir,
            PathComponent::CurDir => PathComponentView::CurDir,
            PathComponent::ParentDir => PathComponentView::ParentDir,
            PathComponent::Normal(s) => PathComponentView::Normal(s@),
        }
    }
}

/// The views of a list of components.
pub open spec fn component_views(v: Seq<PathComponent>) -> Seq<PathComponentView> {
    v.map_values(|c: PathComponent| c.view())
}

/// What `std::path::Path::components` gives for a path.
pub uninterp spec fn path_components_of(path: Seq<char>) -> Seq<PathComponentView>;

/// What collecting components into a `std::path::PathBuf` gives, as text.
pub uninterp spec fn path_from_components(components: Seq<PathComponentView>) -> Seq<char>;

/// `std::path::Path::components` of a path, each component converted to a
/// `PathComponent`; the contract names the result.
#[verifier::external_body]
fn components_of(path: &str) -> (r: Vec<PathComponent>)
    ensures
        component_views(r@) == path_components_of(path@),
{
    std::path::Path::new(path).components().map(|c| match c {
        std::path::Component::Prefix(p) => PathComponent::Prefix(
            p.as_os_str().to_string_lossy().into_owned(),
        ),
        std::path::Component::RootDir => PathComponent::RootDir,
        std::path::Component::CurDir => PathComponent::CurDir,
        std::path::Component::ParentDir => PathComponent::ParentDir,
        std::path::Component::Normal(s) => PathComponent::Normal(s.to_string_lossy().into_owned()),
    }).collect()
}

/// `std::path::PathBuf` collected from components, as text; the contract names the result.
#[verifier::external_body]
fn collect_components(components: &Vec<PathComponent>) -> (r: String)
    ensures
        r@ == path_from_components(component_views(components@)),
{
    let mut p = std::path::PathBuf::new();
    for c in components.iter() {
        match c {
            PathComponent::Prefix(s) => p.push(s),
            PathComponent::RootDir => p.push(std::path::Component::RootDir.as_os_str()),
            PathComponent::CurDir => p.push("."),
            PathComponent::ParentDir => p.push(".."),
            PathComponent::Normal(s) => p.push(s),
        }
    }
    p.to_string_lossy().into_owned()
}

/// One normalization step: `.` is dropped; `..` removes a preceding normal
/// component, or is kept when there is none; anything else is kept.
pub open spec fn normalize_step(acc: Seq<PathComponentView>, c: PathComponentView) -> Seq<
    PathComponentView,
> {
    match c {
        PathComponentView::CurDir => acc,
        PathComponentView::ParentDir => if acc.len() > 0 && acc.last() is Normal {
            acc.drop_last()
        } else {
            acc.push(c)
        },
        _ => acc.push(c),
    }
}

/// Lexical normalization of a component list.
pub open spec fn normalize_components(cs: Seq<PathComponentView>) -> Seq<PathComponentView>
    decreases cs.len(),
{
    if cs.len() == 0 {
        Seq::empty()
    } else {
        normalize_step(normalize_components(cs.drop_last()), cs.last())
    }
}

/// The normalized text of a path.
pub open spec fn normalized_path(path: Seq<char>) -> Seq<char> {
    path_from_components(normalize_components(path_components_of(path)))
}

/// Lexically normalize a path: drop `.` and resolve `..` against preceding
/// normal components.
pub fn normalize_path(path: &str) -> (r: String)
    ensures
        r@ == normalized_path(path@),
{
    let cs = components_of(path);
    let mut out: Vec<PathComponent> = Vec::new();
    let ghost cv = component_views(cs@);
    let mut i: usize = 0;
    assert(component_views(out@) =~= Seq::<PathComponentView>::empty());
    while i < cs.len()
        invariant
            i <= cs@.len(),
            cv == component_views(cs@),
            component_views(out@) == normalize_components(cv.take(i as int)),
        decreases cs@.len() - i,
    {
        assert(cv.take(i + 1).drop_last() =~= cv.take(i as int));
        let ghost prev = component_views(out@);
        match &cs[i] {
            PathComponent::CurDir => {},
            PathComponent::ParentDir => {
                let last_normal = out.len() > 0 && match &out[out.len() - 1] {
                    PathComponent::Normal(_) => true,
                    _ => false,
                };
                if last_normal {
                    out.pop();
                    assert(component_views(out@) =~= prev.drop_last());
                } else {
                    out.push(PathComponent::ParentDir);
                    assert(component_views(out@) =~= prev.push(PathComponentView::ParentDir));
                }
            },
            PathComponent::Prefix(s) => {
                out.push(PathComponent::Prefix(s.clone()));
                assert(component_views(out@) =~= prev.push(cv[i as int]));
            },
            PathComponent::RootDir => {
                out.push(PathComponent::RootDir);
                assert(component_views(out@) =~= prev.push(cv[i as int]));
            },
            PathComponent::Normal(s) => {
                out.push(PathComponent::Normal(s.clone()));
                assert(component_views(out@) =~= prev.push(cv[i as int]));
            },
        }
        i += 1;
    }
    assert(cv.take(cs@.len() as int) =~= cv);
    collect_components(&out)
}

/// Whether the components of `base` are a prefix of the components of `path`
/// (`std::path::Path::starts_with`).
pub open spec fn path_starts_with(path: Seq<char>, base: Seq<char>) -> bool {
    let a = path_components_of(path);
    let b = path_components_of(base);
    b.len() <= a.len() && a.subrange(0, b.len() as int) == b
}

fn component_eq(a: &PathComponent, b: &PathComponent) -> (r: bool)
    ensures
        r == (a.view() == b.view()),
{
    match (a, b) {
        (PathComponent::Prefix(x), PathComponent::Prefix(y)) => str_eq(x.as_str(), y.as_str()),
        (PathComponent::RootDir, PathComponent::RootDir) => true,
        (PathComponent::CurDir, PathComponent::CurDir) => true,
        (PathComponent::ParentDir, PathComponent::ParentDir) => true,
        (PathComponent::Normal(x), PathComponent::Normal(y)) => str_eq(x.as_str(), y.as_str()),
        _ => false,
    }
}

/// `std::path::Path::starts_with`: whole components only.
pub fn starts_with_path(path: &str, base: &str) -> (r: bool)
    ensures
        r == path_starts_with(path@, base@),
{
    let a = components_of(path);
    let b = components_of(base);
    if b.len() > a.len() {
        return false;
    }
    let ghost av = component_views(a@);
    let ghost bv = component_views(b@);
    let mut i: usize = 0;
    while i < b.len()
        invariant
            i <= b@.len() <= a@.len(),
            av == component_views(a@),
            bv == component_views(b@),
            av == path_components_of(path@),
            bv == path_components_of(base@),
            forall|j: int| 0 <= j < i ==> av[j] == bv[j],
        decreases b@.len() - i,
    {
        assert(av[i as int] == a@[i as int].view());
        assert(bv[i as int] == b@[i as int].view());
        if !component_eq(&a[i], &b[i]) {
            assert(av.subrange(0, bv.len() as int)[i as int] != bv[i as int]);
            assert(av.subrange(0, bv.len() as int) != bv);
            return false;
        }
        i += 1;
    }
    assert(av.subrange(0, bv.len() as int) =~= bv);
    true
}

/// Whether an import source is relative and resolves (from `abs_dir`) inside `src_dir`.
pub open spec fn is_local_relative(source: Seq<char>, abs_dir: Seq<char>, src_dir: Seq<char>) -> bool {
    &&& source.len() > 0 && source[0] == '.'
    &&& path_starts_with(
        normalized_path(path_join(abs_dir, source)),
        normalized_path(src_dir),
    )
}

/// The sources to inject, in order: the local relative ones that are not
/// already imported by the module, each once.
pub open spec fn sources_to_inject(
    sources: Seq<Seq<char>>,
    existing: Seq<Seq<char>>,
    abs_dir: Seq<char>,
    src_dir: Seq<char>,
) -> Seq<Seq<char>>
    decreases sources.len(),
{
    if sources.len() == 0 {
        Seq::empty()
    } else {
        let prev = sources_to_inject(sources.drop_last(), existing, abs_dir, src_dir);
        let s = sources.last();
        if is_local_relative(s, abs_dir, src_dir) && !existing.contains(s) && !prev.contains(s) {
            prev.push(s)
        } else {
            prev
        }
    }
}

/// The import sources (in the module's import order) that get a bare
/// side-effect import, in the order those imports end up at the top of the module.
pub fn side_effect_import_sources(
    import_sources: &Vec<String>,
    existing: &Vec<String>,
    abs_dir: &str,
    src_dir: &str,
) -> (r: Vec<String>)
    ensures
        views(r@) == sources_to_inject(views(import_sources@), views(existing@), abs_dir@, src_dir@),
{
    let ghost srcs = views(import_sources@);
    let normalized_src_dir = normalize_path(src_dir);
    let mut to_inject: Vec<String> = Vec::new();
    let mut i: usize = 0;
    assert(views(to_inject@) =~= Seq::<Seq<char>>::empty());
    while i < import_sources.len()
        invariant
            i <= import_sources@.len(),
            srcs == views(import_sources@),
            normalized_src_dir@ == normalized_path(src_dir@),
            views(to_inject@) == sources_to_inject(
                srcs.take(i as int),
                views(existing@),
                abs_dir@,
                src_dir@,
            ),
        decreases import_sources@.len() - i,
    {
        assert(srcs.take(i + 1).drop_last() =~= srcs.take(i as int));
        let src = import_sources[i].as_str();
        let v = chars_of(src);
        let relative = v.len() > 0 && v[0] == '.';
        let keep = if relative {
            let raw = join_paths(abs_dir, src);
            let resolved = normalize_path(raw.as_str());
            starts_with_path(resolved.as_str(), normalized_src_dir.as_str()) && !contains_str(
                existing,
                src,
            ) && !contains_str(&to_inject, src)
        } else {
            false
        };
        if keep {
            let ghost prev = views(to_inject@);
            to_inject.push(import_sources[i].clone());
            assert(views(to_inject@) =~= prev.push(src@));
        }
        i += 1;
    }
    assert(srcs.take(import_sources@.len() as int) =~= srcs);
    to_inject
}

/// The bare side-effect import statement of a source: `import "{source}";`
pub fn side_effect_import_stmt(source: &str) -> (r: String)
    ensures
        r@ == "import \""@ + source@ + "\";"@,
{
    concat3("import \"", source, "\";")
}

/// Law: every source is injected at most once, and only local relative sources
/// that the module does not import already are injected.
pub proof fn lemma_injected_sources_are_distinct_and_new(
    sources: Seq<Seq<char>>,
    existing: Seq<Seq<char>>,
    abs_dir: Seq<char>,
    src_dir: Seq<char>,
)
    ensures
        ({
            let r = sources_to_inject(sources, existing, abs_dir, src_dir);
            &&& forall|i: int, j: int| 0 <= i < j < r.len() ==> r[i] != r[j]
            &&& forall|i: int|
                0 <= i < r.len() ==> is_local_relative(#[trigger] r[i], abs_dir, src_dir)
                    && !existing.contains(r[i])
        }),
    decreases sources.len(),
{
    if sources.len() > 0 {
        lemma_injected_sources_are_distinct_and_new(sources.drop_last(), existing, abs_dir, src_dir);
        let prev = sources_to_inject(sources.drop_last(), existing, abs_dir, src_dir);
        let s = sources.last();
        if is_local_relative(s, abs_dir, src_dir) && !existing.contains(s) && !prev.contains(s) {
            let r = prev.push(s);
            assert forall|i: int, j: int| 0 <= i < j < r.len() implies r[i] != r[j] by {
                if j == prev.len() {
                    assert(r[i] == prev[i]);
                    if r[i] == r[j] {
                        assert(prev.contains(s));
                    }
                }
            }
            assert forall|i: int| 0 <= i < r.len() implies is_local_relative(
                #[trigger] r[i],
                abs_dir,
                src_dir,
            ) && !existing.contains(r[i]) by {
                if i < prev.len() {
                    assert(r[i] == prev[i]);
                }
            }
        }
    }
}

} // verus!
