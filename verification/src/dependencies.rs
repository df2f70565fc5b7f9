//! The names under which the generated application depends on its packages.
//!
//! A package goes by the name of its crate. Where two packages share that
//! name, each goes by its name and its version, as in `serde_1_0_197`. The
//! name under which a package is imported in source has an underscore for
//! every hyphen.

use vstd::prelude::*;
use vstd::string::StringExecFns;
use crate::packages::PackageId;

verus! {

/// What is known of a package that the generated application may depend on.
#[derive(Debug, Clone, PartialEq, Eq, Hash)]
pub struct PackageMetadata {
    pub id: PackageId,
    /// The name of the crate.
    pub name: String,
    pub major: u64,
    pub minor: u64,
    pub patch: u64,
    /// Whether the package is the generated application itself or a crate of
    /// the toolchain: such a package is no dependency.
    pub exempt: bool,
}

/// The names that a package goes by.
#[derive(Debug, Clone, PartialEq, Eq, Hash)]
pub struct DependencyName {
    pub package_id: PackageId,
    /// The name of the dependency in the manifest.
    pub dependency_name: String,
    /// The name under which source code imports the package.
    pub import_name: String,
    /// Whether the name of the dependency differs from the name of the crate.
    pub renamed: bool,
}

/// The names that a package goes by, as specifications speak of them.
pub struct DependencyNameView {
    pub package_id: PackageId,
    pub dependency_name: Seq<char>,
    pub import_name: Seq<char>,
    pub renamed: bool,
}

impl View for DependencyName {
    type V = DependencyNameView;

    open spec fn view(&self) -> DependencyNameView {
        DependencyNameView {
            package_id: self.package_id,
            dependency_name: self.dependency_name@,
            import_name: self.import_name@,
            renamed: self.renamed,
        }
    }
}

/// What a git dependency asks of its repository.
#[derive(Debug, Clone, PartialEq, Eq, Hash)]
pub enum GitRequest {
    Branch(String),
    Tag(String),
    Rev(String),
    Default,
}

/// Where a package comes from.
#[derive(Debug, Clone, PartialEq, Eq, Hash)]
pub enum PackageOrigin {
    /// A package of the workspace or a path dependency: its path, joined to
    /// the root of the workspace where it was relative.
    Local { path: String },
    Registry { url: String, is_crates_io: bool },
    Git { repository: String, request: GitRequest },
}

/// The fields of a dependency that say where it comes from.
#[derive(Debug, Clone, PartialEq, Eq, Hash)]
pub struct SourceFields {
    pub path: Option<String>,
    pub registry: Option<String>,
    pub git: Option<String>,
    pub branch: Option<String>,
    pub tag: Option<String>,
    pub rev: Option<String>,
}

/// The fields that say where a package comes from: a local package has its
/// path and nothing else; a package of a registry names the registry unless
/// it is crates.io, which no field names; a package from a git repository has
/// the repository and the one field that its request names, if it names any.
pub open spec fn spec_source_fields(origin: PackageOrigin) -> SourceFields {
    match origin {
        PackageOrigin::Local { path } => SourceFields {
            path: Some(path),
            registry: None,
            git: None,
            branch: None,
            tag: None,
            rev: None,
        },
        PackageOrigin::Registry { url, is_crates_io } => SourceFields {
            path: None,
            registry: if is_crates_io {
                None
            } else {
                Some(url)
            },
            git: None,
            branch: None,
            tag: None,
            rev: None,
        },
        PackageOrigin::Git { repository, request } => SourceFields {
            path: None,
            registry: None,
            git: Some(repository),
            branch: match request {
                GitRequest::Branch(branch) => Some(branch),
                _ => None,
            },
            tag: match request {
                GitRequest::Tag(tag) => Some(tag),
                _ => None,
            },
            rev: match request {
                GitRequest::Rev(rev) => Some(rev),
                _ => None,
            },
        },
    }
}

/// The fields of a dependency that say where the package comes from.
pub fn source_fields(origin: &PackageOrigin) -> (r: SourceFields)
    ensures
        r == spec_source_fields(*origin),
{
    match origin {
        PackageOrigin::Local { path } => SourceFields {
            path: Some(path.clone()),
            registry: None,
            git: None,
            branch: None,
            tag: None,
            rev: None,
        },
        PackageOrigin::Registry { url, is_crates_io } => SourceFields {
            path: None,
            registry: if *is_crates_io {
                None
            } else {
                Some(url.clone())
            },
            git: None,
            branch: None,
            tag: None,
            rev: None,
        },
        PackageOrigin::Git { repository, request } => {
            let branch = match request {
                GitRequest::Branch(branch) => Some(branch.clone()),
                _ => None,
            };
            let tag = match request {
                GitRequest::Tag(tag) => Some(tag.clone()),
                _ => None,
            };
            let rev = match request {
                GitRequest::Rev(rev) => Some(rev.clone()),
                _ => None,
            };
            SourceFields { path: None, registry: None, git: Some(repository.clone()), branch, tag, rev }
        },
    }
}

/// Whether a package with this identifier is no dependency of the generated
/// application: the application itself, which goes by `crate`, and the crates
/// that come with the toolchain.
pub open spec fn is_exempt_id(repr: Seq<char>) -> bool {
    repr == "crate"@ || repr == "std"@ || repr == "core"@ || repr == "alloc"@
}

/// Whether a package with this identifier is no dependency of the generated
/// application.
pub fn is_exempt(repr: &str) -> (r: bool)
    ensures
        r == is_exempt_id(repr@),
{
    let id = String::from_str(repr);
    id == String::from_str("crate") || id == String::from_str("std") || id == String::from_str("core") || id
        == String::from_str("alloc")
}

/// The character of a decimal digit.
pub open spec fn digit_char(d: int) -> char {
    if d == 0 {
        '0'
    } else if d == 1 {
        '1'
    } else if d == 2 {
        '2'
    } else if d == 3 {
        '3'
    } else if d == 4 {
        '4'
    } else if d == 5 {
        '5'
    } else if d == 6 {
        '6'
    } else if d == 7 {
        '7'
    } else if d == 8 {
        '8'
    } else {
        '9'
    }
}

/// The decimal digits of a number, the most significant first.
pub open spec fn decimal(n: nat) -> Seq<char>
    decreases n,
{
    if n < 10 {
        seq![digit_char(n as int)]
    } else {
        decimal(n / 10).push(digit_char((n % 10) as int))
    }
}

/// The text with an underscore for every hyphen.
pub open spec fn underscored(text: Seq<char>) -> Seq<char> {
    Seq::new(
        text.len(),
        |i: int|
            if text[i] == '-' {
                '_'
            } else {
                text[i]
            },
    )
}

/// Whether another package that is a dependency has the name of the
/// `i`-th.
pub open spec fn shares_name(packages: Seq<PackageMetadata>, i: int) -> bool {
    exists|j: int|
        0 <= j < packages.len() && !(#[trigger] packages[j]).exempt && packages[j].id != packages[i].id
            && packages[j].name@ == packages[i].name@
}

/// The name of the crate followed by its version, as in `serde_1_0_197`.
pub open spec fn versioned_name(package: PackageMetadata) -> Seq<char> {
    package.name@ + seq!['_'] + decimal(package.major as nat) + seq!['_'] + decimal(package.minor as nat) + seq![
        '_',
    ] + decimal(package.patch as nat)
}

/// The names that the `i`-th package goes by.
pub open spec fn names_of(packages: Seq<PackageMetadata>, i: int) -> DependencyNameView {
    let renamed = shares_name(packages, i);
    let dependency_name = if renamed {
        versioned_name(packages[i])
    } else {
        packages[i].name@
    };
    DependencyNameView {
        package_id: packages[i].id,
        dependency_name,
        import_name: underscored(dependency_name),
        renamed,
    }
}

/// The names of the dependencies among the first `n` packages, in order.
pub open spec fn names_upto(packages: Seq<PackageMetadata>, n: int) -> Seq<DependencyNameView>
    decreases n,
{
    if n <= 0 {
        Seq::empty()
    } else if n <= packages.len() && !packages[n - 1].exempt {
        names_upto(packages, n - 1).push(names_of(packages, n - 1))
    } else {
        names_upto(packages, n - 1)
    }
}

/// The names of a list, each by its view.
pub open spec fn names_view(names: Seq<DependencyName>) -> Seq<DependencyNameView> {
    names.map_values(|name: DependencyName| name@)
}

/// The text of a decimal digit.
pub fn digit_text(d: u64) -> (text: &'static str)
    requires
        d < 10,
    ensures
        text@ == seq![digit_char(d as int)],
{
    proof {
        reveal_strlit("0");
        reveal_strlit("1");
        reveal_strlit("2");
        reveal_strlit("3");
        reveal_strlit("4");
        reveal_strlit("5");
        reveal_strlit("6");
        reveal_strlit("7");
        reveal_strlit("8");
        reveal_strlit("9");
    }
    let text = if d == 0 {
        "0"
    } else if d == 1 {
        "1"
    } else if d == 2 {
        "2"
    } else if d == 3 {
        "3"
    } else if d == 4 {
        "4"
    } else if d == 5 {
        "5"
    } else if d == 6 {
        "6"
    } else if d == 7 {
        "7"
    } else if d == 8 {
        "8"
    } else {
        "9"
    };
    assert(text@ =~= seq![digit_char(d as int)]);
    text
}

/// Appends the decimal digits of `n` to `text`.
pub fn append_decimal(text: &mut String, n: u64)
    ensures
        final(text)@ == old(text)@ + decimal(n as nat),
    decreases n,
{
    if n >= 10 {
        append_decimal(text, n / 10);
    }
    text.append(digit_text(n % 10));
    assert(text@ =~= old(text)@ + decimal(n as nat));
}

/// The text with an underscore for every hyphen.
pub fn with_underscores(text: &str) -> (r: String)
    ensures
        r@ == underscored(text@),
{
    proof {
        reveal_strlit("_");
    }
    let n = text.unicode_len();
    let mut r = String::new();
    let mut i: usize = 0;
    while i < n
        invariant
            i <= n,
            n == text@.len(),
            r@ == underscored(text@).take(i as int),
            "_"@ == seq!['_'],
        decreases n - i,
    {
        if text.get_char(i) == '-' {
            r.append("_");
        } else {
            r.append(text.substring_char(i, i + 1));
        }
        i += 1;
        assert(r@ =~= underscored(text@).take(i as int));
    }
    assert(underscored(text@).take(i as int) =~= underscored(text@));
    r
}

/// Whether another package that is a dependency has the name of the `i`-th.
pub fn name_is_shared(packages: &Vec<PackageMetadata>, i: usize) -> (r: bool)
    requires
        i < packages@.len(),
    ensures
        r == shares_name(packages@, i as int),
{
    let mut j: usize = 0;
    while j < packages.len()
        invariant
            j <= packages@.len(),
            i < packages@.len(),
            forall|k: int|
                0 <= k < j ==> !(!(#[trigger] packages@[k]).exempt && packages@[k].id != packages@[i as int].id
                    && packages@[k].name@ == packages@[i as int].name@),
        decreases packages@.len() - j,
    {
        if !packages[j].exempt && packages[j].id != packages[i].id && packages[j].name == packages[i].name {
            return true;
        }
        j += 1;
    }
    false
}

/// The names under which the generated application depends on the packages,
/// in their order. The generated application itself and the crates of the
/// toolchain are left out.
pub fn compute_dependencies(packages: &Vec<PackageMetadata>) -> (names: Vec<DependencyName>)
    ensures
        names_view(names@) == names_upto(packages@, packages@.len() as int),
{
    proof {
        reveal_strlit("_");
    }
    let mut names: Vec<DependencyName> = Vec::new();
    assert(names_view(names@) =~= Seq::<DependencyNameView>::empty());
    let mut i: usize = 0;
    while i < packages.len()
        invariant
            i <= packages@.len(),
            names_view(names@) == names_upto(packages@, i as int),
            "_"@ == seq!['_'],
        decreases packages@.len() - i,
    {
        let package = &packages[i];
        if !package.exempt {
            let renamed = name_is_shared(packages, i);
            let mut dependency_name = package.name.clone();
            if renamed {
                dependency_name.append("_");
                append_decimal(&mut dependency_name, package.major);
                dependency_name.append("_");
                append_decimal(&mut dependency_name, package.minor);
                dependency_name.append("_");
                append_decimal(&mut dependency_name, package.patch);
                assert(dependency_name@ =~= versioned_name(*package));
            }
            let import_name = with_underscores(dependency_name.as_str());
            let ghost earlier = names@;
            let name = DependencyName { package_id: package.id, dependency_name, import_name, renamed };
            names.push(name);
            assert(names_view(names@) =~= names_view(earlier).push(name@));
        }
        i += 1;
    }
    names
}

} // verus!
