//! Paths of captured templates, which must stay inside the template directory.
use crate::text::{lemma_split_nonempty, same_text, split};
use std::path::{Component, Path};
use vstd::prelude::*;

verus! {

/// One component of a path.
#[derive(Debug)]
pub enum PathPart {
    /// The name of a file or directory.
    Normal(String),
    /// A root, a prefix, or a step to the same or the parent directory.
    Other,
}

/// One component of a path as a mathematical value.
pub enum PathPartView {
    Normal(Seq<char>),
    Other,
}

impl View for PathPart {
    type V = PathPartView;

    open spec fn view(&self) -> PathPartView {
        match self {
            PathPart::Normal(name) => PathPartView::Normal(name@),
            PathPart::Other => PathPartView::Other,
        }
    }
}

/// The components as mathematical values.
pub open spec fn part_views(parts: Seq<PathPart>) -> Seq<PathPartView> {
    parts.map_values(|part: PathPart| part@)
}

/// A character that has no meaning of its own in paths on any platform.
pub open spec fn path_char(c: char) -> bool {
    ('a' <= c && c <= 'z') || ('A' <= c && c <= 'Z') || ('0' <= c && c <= '9') || c == '-' || c
        == '_' || c == '.'
}

/// A path that reads the same on every platform: names joined by slashes.
pub open spec fn plain_path(text: Seq<char>) -> bool {
    &&& forall|i: int| 0 <= i < text.len() ==> path_char(#[trigger] text[i]) || text[i] == '/'
    &&& forall|i: int|
        0 <= i < split(text, '/').len() ==> {
            let part = #[trigger] split(text, '/')[i];
            part.len() > 0 && part != "."@ && part != ".."@
        }
}

/// A text that is cut into components in the same way on every platform: it has no
/// backslash and no colon, which only some platforms give a meaning of their own,
/// and no root.
pub open spec fn portable_path(text: Seq<char>) -> bool {
    &&& forall|i: int| 0 <= i < text.len() ==> #[trigger] text[i] != '\\' && text[i] != ':'
    &&& !starts_at_root(text)
}

/// The text begins with a slash.
pub open spec fn starts_at_root(text: Seq<char>) -> bool {
    text.len() > 0 && text[0] == '/'
}

/// The component that one of the names between slashes stands for. An empty name
/// stands for none, and so does a dot unless the path begins with it.
pub open spec fn named_part(name: Seq<char>, first: bool) -> Seq<PathPartView> {
    if name.len() == 0 || (name == "."@ && !first) {
        Seq::empty()
    } else if name == "."@ || name == ".."@ {
        seq![PathPartView::Other]
    } else {
        seq![PathPartView::Normal(name)]
    }
}

/// The components that names between slashes stand for.
pub open spec fn named_parts(names: Seq<Seq<char>>) -> Seq<PathPartView>
    decreases names.len(),
{
    if names.len() == 0 {
        Seq::empty()
    } else {
        named_parts(names.drop_last()) + named_part(names.last(), names.len() == 1)
    }
}

/// `Path::is_absolute`. A text without a root, a backslash or a colon is a relative
/// path on every platform; of other texts nothing is claimed.
#[verifier::external_body]
fn is_absolute(path: &str) -> (r: bool)
    ensures
        portable_path(path@) ==> !r,
{
    Path::new(path).is_absolute()
}

/// `Path::components`. Names between slashes are components on every platform:
/// repeated and trailing slashes are passed over, and so are dots that do not
/// begin the path. A leading slash gives a root or a prefix. Of texts with a
/// backslash or a colon, which only some platforms read as part of a prefix or as
/// a separator, nothing more is claimed.
#[verifier::external_body]
fn components_of(path: &str) -> (r: Vec<PathPart>)
    ensures
        portable_path(path@) ==> part_views(r@) == named_parts(split(path@, '/')),
        starts_at_root(path@) ==> r@.len() > 0 && part_views(r@)[0] is Other,
{
    let part = |component: Component<'_>| match component {
        Component::Normal(name) => PathPart::Normal(name.to_string_lossy().into_owned()),
        Component::Prefix(_) => PathPart::Other,
        Component::RootDir => PathPart::Other,
        Component::CurDir => PathPart::Other,
        Component::ParentDir => PathPart::Other,
    };
    Path::new(path).components().map(part).collect()
}

/// Why a template path is refused.
#[derive(Debug, Clone, Copy, PartialEq, Eq, Structural)]
pub enum TemplatePathError {
    Absolute,
    InvalidComponent,
    OutsideTemplates,
}

impl TemplatePathError {
    /// The message shown to the user.
    pub open spec fn message_text(self) -> Seq<char> {
        match self {
            TemplatePathError::Absolute => "local template path must be relative"@,
            TemplatePathError::InvalidComponent => {
                "local template path contains an invalid component"@
            },
            TemplatePathError::OutsideTemplates => {
                "local template path must be inside local_templates"@
            },
        }
    }

    /// The message shown to the user.
    pub fn message(self) -> (r: &'static str)
        ensures
            r@ == self.message_text(),
    {
        match self {
            TemplatePathError::Absolute => "local template path must be relative",
            TemplatePathError::InvalidComponent => {
                "local template path contains an invalid component"
            },
            TemplatePathError::OutsideTemplates => {
                "local template path must be inside local_templates"
            },
        }
    }
}

/// What is wrong with a template path, by whether it is absolute and by its
/// components.
pub open spec fn path_fault(absolute: bool, parts: Seq<PathPartView>) -> Option<
    TemplatePathError,
> {
    if absolute {
        Some(TemplatePathError::Absolute)
    } else if exists|i: int| 0 <= i < parts.len() && (#[trigger] parts[i]) is Other {
        Some(TemplatePathError::InvalidComponent)
    } else if parts.len() == 0 || parts[0] != PathPartView::Normal("local_templates"@) {
        Some(TemplatePathError::OutsideTemplates)
    } else {
        None
    }
}

/// Checks a template path by whether it is absolute and by its components.
pub fn check_parts(absolute: bool, parts: &Vec<PathPart>) -> (r: Result<(), TemplatePathError>)
    ensures
        match r {
            Ok(_) => path_fault(absolute, part_views(parts@)) is None,
            Err(error) => path_fault(absolute, part_views(parts@)) == Some(error),
        },
{
    let ghost all = part_views(parts@);
    if absolute {
        return Err(TemplatePathError::Absolute);
    }
    let mut i: usize = 0;
    while i < parts.len()
        invariant
            !absolute,
            i <= parts@.len(),
            all == part_views(parts@),
            forall|k: int| 0 <= k < i ==> !((#[trigger] all[k]) is Other),
        decreases parts@.len() - i,
    {
        assert(all[i as int] == parts@[i as int]@);
        match &parts[i] {
            PathPart::Normal(_) => {},
            PathPart::Other => {
                return Err(TemplatePathError::InvalidComponent);
            },
        }
        i = i + 1;
    }
    if parts.len() == 0 {
        return Err(TemplatePathError::OutsideTemplates);
    }
    assert(all[0] == parts@[0]@);
    match &parts[0] {
        PathPart::Normal(name) => {
            if same_text(name.as_str(), "local_templates") {
                Ok(())
            } else {
                Err(TemplatePathError::OutsideTemplates)
            }
        },
        PathPart::Other => Err(TemplatePathError::InvalidComponent),
    }
}

/// The path of a template below the directory of the preset file, when it is
/// relative, has plain components only and stays inside the template directory.
///
/// How a text with a backslash or a colon falls into components is the platform's
/// to say; other texts are the same everywhere.
pub fn resolve_template_path(relative: &str) -> (r: Result<String, TemplatePathError>)
    ensures
        r matches Ok(path) ==> path@ == relative@,
        starts_at_root(relative@) ==> r is Err,
        portable_path(relative@) ==> match r {
            Ok(_) => path_fault(false, named_parts(split(relative@, '/'))) is None,
            Err(error) => path_fault(false, named_parts(split(relative@, '/'))) == Some(error),
        },
{
    let absolute = is_absolute(relative);
    let parts = components_of(relative);
    match check_parts(absolute, &parts) {
        Ok(_) => Ok(relative.to_string()),
        Err(error) => Err(error),
    }
}

proof fn lemma_plain_parts(names: Seq<Seq<char>>)
    requires
        forall|i: int|
            0 <= i < names.len() ==> (#[trigger] names[i]).len() > 0 && names[i] != "."@ && names[i]
                != ".."@,
    ensures
        named_parts(names) == names.map_values(|name: Seq<char>| PathPartView::Normal(name)),
    decreases names.len(),
{
    if names.len() > 0 {
        lemma_plain_parts(names.drop_last());
        assert(names.last() == names[names.len() - 1]);
        assert(named_parts(names) =~= names.map_values(
            |name: Seq<char>| PathPartView::Normal(name),
        ));
    }
}

proof fn lemma_first_name(text: Seq<char>)
    requires
        starts_at_root(text),
    ensures
        split(text, '/').len() >= 2,
        split(text, '/')[0].len() == 0,
    decreases text.len(),
{
    if text.len() > 1 {
        lemma_first_name(text.drop_last());
    } else {
        lemma_split_nonempty(text.drop_last(), '/');
    }
}

/// Names joined by slashes are a good path exactly when the first is that of the
/// template directory.
pub proof fn lemma_plain_path(text: Seq<char>)
    requires
        plain_path(text),
    ensures
        portable_path(text),
        path_fault(false, named_parts(split(text, '/'))) == (if split(text, '/')[0]
            == "local_templates"@ {
            None
        } else {
            Some(TemplatePathError::OutsideTemplates)
        }),
{
    let names = split(text, '/');
    lemma_split_nonempty(text, '/');
    lemma_plain_parts(names);
    let parts = named_parts(names);
    assert forall|i: int| 0 <= i < parts.len() implies !((#[trigger] parts[i]) is Other) by {
        assert(parts[i] == PathPartView::Normal(names[i]));
    }
    assert(parts[0] == PathPartView::Normal(names[0]));
    if starts_at_root(text) {
        lemma_first_name(text);
    }
}

proof fn lemma_up_is_seen(names: Seq<Seq<char>>, k: int)
    requires
        0 <= k < names.len(),
        names[k] == ".."@,
    ensures
        exists|i: int|
            0 <= i < named_parts(names).len() && (#[trigger] named_parts(names)[i]) is Other,
    decreases names.len(),
{
    reveal_strlit(".");
    reveal_strlit("..");
    let before = named_parts(names.drop_last());
    let after = named_part(names.last(), names.len() == 1);
    let parts = named_parts(names);
    assert(parts == before + after);
    if k == names.len() - 1 {
        assert("."@.len() == 1 && ".."@.len() == 2);
        assert(parts[before.len() as int] is Other);
    } else {
        lemma_up_is_seen(names.drop_last(), k);
        let i = choose|i: int| 0 <= i < before.len() && (#[trigger] before[i]) is Other;
        assert(parts[i] == before[i]);
    }
}

/// A path that goes up a directory anywhere is refused.
pub proof fn lemma_no_way_up(text: Seq<char>)
    requires
        portable_path(text),
        split(text, '/').contains(".."@),
    ensures
        path_fault(false, named_parts(split(text, '/'))) == Some(
            TemplatePathError::InvalidComponent,
        ),
{
    let names = split(text, '/');
    let k = choose|k: int| 0 <= k < names.len() && names[k] == ".."@;
    lemma_up_is_seen(names, k);
}

proof fn lemma_parts_named(names: Seq<Seq<char>>)
    requires
        names.len() > 0,
    ensures
        ({
            let parts = named_parts(names);
            &&& (exists|i: int| 0 <= i < parts.len() && (#[trigger] parts[i]) is Other)
                <==> names[0] == "."@ || names.contains(".."@)
            &&& forall|k: int|
                #![trigger names[k]]
                0 <= k < names.len() && names[k].len() > 0 && names[k] != "."@ && names[k] != ".."@
                    && (forall|j: int|
                    0 <= j < k ==> (#[trigger] names[j]).len() == 0 || (j > 0 && names[j] == "."@))
                    ==> parts.len() > 0 && parts[0] == PathPartView::Normal(names[k])
            &&& (forall|j: int|
                0 <= j < names.len() ==> (#[trigger] names[j]).len() == 0 || (j > 0 && names[j]
                    == "."@)) ==> parts.len() == 0
        }),
    decreases names.len(),
{
    reveal_strlit(".");
    reveal_strlit("..");
    let parts = named_parts(names);
    let before = names.drop_last();
    let last: int = names.len() - 1;
    let held = named_parts(before);
    let more = named_part(names[last], names.len() == 1);
    assert(names.last() == names[last]);
    assert(parts == held + more);
    if names.len() == 1 {
        assert(held =~= Seq::<PathPartView>::empty());
        assert(parts =~= more);
        if names.contains(".."@) {
            let k = choose|k: int| 0 <= k < names.len() && names[k] == ".."@;
            assert(more[0] is Other);
            assert(parts[0] is Other);
        }
        if names[0] == "."@ {
            assert(more[0] is Other);
            assert(parts[0] is Other);
        }
        if names[0] == ".."@ {
            assert(names.contains(".."@));
        }
    } else {
        lemma_parts_named(before);
        assert forall|i: int| 0 <= i < before.len() implies #[trigger] names[i] == before[i] by {}
        assert forall|i: int| 0 <= i < held.len() implies #[trigger] parts[i] == held[i] by {}
        if exists|i: int| 0 <= i < parts.len() && (#[trigger] parts[i]) is Other {
            let i = choose|i: int| 0 <= i < parts.len() && (#[trigger] parts[i]) is Other;
            if i < held.len() {
                assert(held[i] is Other);
                if before.contains(".."@) {
                    let k = choose|k: int| 0 <= k < before.len() && before[k] == ".."@;
                    assert(names[k] == ".."@);
                }
            } else {
                assert(more[i - held.len()] is Other);
                assert(names[last] == ".."@);
            }
        }
        if names[0] == "."@ {
            assert(before[0] == "."@);
            let i = choose|i: int| 0 <= i < held.len() && (#[trigger] held[i]) is Other;
            assert(parts[i] is Other);
        }
        if names.contains(".."@) {
            let k = choose|k: int| 0 <= k < names.len() && names[k] == ".."@;
            if k < last {
                assert(before[k] == ".."@);
                let i = choose|i: int| 0 <= i < held.len() && (#[trigger] held[i]) is Other;
                assert(parts[i] is Other);
            } else {
                assert(more[0] is Other);
                assert(parts[held.len() as int] is Other);
            }
        }
        assert forall|k: int|
            #![trigger names[k]]
            0 <= k < names.len() && names[k].len() > 0 && names[k] != "."@ && names[k] != ".."@ && (
            forall|j: int|
                0 <= j < k ==> (#[trigger] names[j]).len() == 0 || (j > 0 && names[j]
                    == "."@)) implies parts.len() > 0 && parts[0] == PathPartView::Normal(
            names[k],
        ) by {
            if k < last {
                assert(before[k] == names[k]);
                assert forall|j: int| 0 <= j < k implies (#[trigger] before[j]).len() == 0 || (j > 0
                    && before[j] == "."@) by {
                    assert(names[j] == before[j]);
                }
                assert(held[0] == PathPartView::Normal(names[k]));
            } else {
                assert forall|j: int| 0 <= j < before.len() implies (#[trigger] before[j]).len()
                    == 0 || (j > 0 && before[j] == "."@) by {
                    assert(names[j] == before[j]);
                }
                assert(held.len() == 0);
                assert(parts =~= more);
            }
        }
        if forall|j: int|
            0 <= j < names.len() ==> (#[trigger] names[j]).len() == 0 || (j > 0 && names[j]
                == "."@) {
            assert forall|j: int| 0 <= j < before.len() implies (#[trigger] before[j]).len() == 0
                || (j > 0 && before[j] == "."@) by {
                assert(names[j] == before[j]);
            }
            assert(names[last].len() == 0 || names[last] == "."@);
        }
    }
}

/// A path without a root is accepted exactly when it goes up nowhere, does not begin with a
/// dot, and the first name in it, apart from what stands for no step, is that of the template
/// directory.
#[verifier::spinoff_prover]
#[verifier::rlimit(30)]
pub proof fn lemma_accepted_path(text: Seq<char>, k: int)
    requires
        0 <= k < split(text, '/').len(),
        split(text, '/')[k].len() > 0,
        k > 0 ==> split(text, '/')[k] != "."@,
        forall|j: int|
            0 <= j < k ==> (#[trigger] split(text, '/')[j]).len() == 0 || (j > 0 && split(
                text,
                '/',
            )[j] == "."@),
    ensures
        path_fault(false, named_parts(split(text, '/'))) is None <==> {
            &&& !split(text, '/').contains(".."@)
            &&& split(text, '/')[0] != "."@
            &&& split(text, '/')[k] == "local_templates"@
        },
        split(text, '/').contains(".."@) || split(text, '/')[0] == "."@ ==> path_fault(
            false,
            named_parts(split(text, '/')),
        ) == Some(TemplatePathError::InvalidComponent),
        forall|parts: Seq<PathPartView>| #[trigger]
            path_fault(true, parts) == Some(TemplatePathError::Absolute),
{
    reveal_strlit(".");
    reveal_strlit("..");
    reveal_strlit("local_templates");
    let names = split(text, '/');
    lemma_parts_named(names);
    let parts = named_parts(names);
    if !names.contains(".."@) && names[0] != "."@ {
        assert(names[k] != ".."@);
        assert(names[k] != "."@);
        assert(parts.len() > 0 && parts[0] == PathPartView::Normal(names[k]));
    }
}

} // verus!
