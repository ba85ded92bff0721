//! The local package inventory: one line per package, as the package
//! database lists it, `status name[:arch] architecture version`.
use crate::text::{
    lemma_split_first_joined, lemma_split_last_absent, lemma_split_last_joined, same_text,
    split_first, split_last, split_once_first, split_once_last,
};
use vstd::prelude::*;

verus! {

/// One package as the package database lists it.
#[derive(Debug)]
pub struct DpkgPackage {
    pub status: String,
    pub name: String,
    pub architecture: String,
    pub version: String,
}

/// The four fields of a package, as character sequences.
pub struct PackageView {
    pub status: Seq<char>,
    pub name: Seq<char>,
    pub architecture: Seq<char>,
    pub version: Seq<char>,
}

impl View for DpkgPackage {
    type V = PackageView;

    open spec fn view(&self) -> PackageView {
        PackageView {
            status: self.status@,
            name: self.name@,
            architecture: self.architecture@,
            version: self.version@,
        }
    }
}

impl PartialEq for DpkgPackage {
    fn eq(&self, o: &DpkgPackage) -> (r: bool) {
        self.status == o.status && self.name == o.name && self.architecture == o.architecture
            && self.version == o.version
    }
}

impl vstd::std_specs::cmp::PartialEqSpecImpl for DpkgPackage {
    open spec fn obeys_eq_spec() -> bool {
        true
    }

    open spec fn eq_spec(&self, o: &DpkgPackage) -> bool {
        self@ == o@
    }
}

/// Which delimiting space a malformed line lacks.
#[derive(Debug, Clone, Copy, PartialEq, Eq, Structural)]
pub enum ParseError {
    /// No space after the status, before the package name.
    MissingNameDelimiter,
    /// No space after the package name, before the architecture.
    MissingArchitectureDelimiter,
    /// No space after the architecture, before the version.
    MissingVersionDelimiter,
}

/// The status of a package that is fully present on the system.
pub open spec fn installed_status() -> Seq<char> {
    seq!['i', 'n', 's', 't', 'a', 'l', 'l', 'e', 'd']
}

/// A package name without its `:arch` qualifier: all before the last colon.
pub open spec fn unqualified_name(name: Seq<char>) -> Seq<char> {
    match split_last(name, ':') {
        Some((base, _)) => base,
        None => name,
    }
}

/// The package that one line describes: the status up to the first space,
/// the name up to the next one, the architecture up to the next one, and
/// the version as all that is left.
pub open spec fn parsed_line(line: Seq<char>) -> Result<PackageView, ParseError> {
    match split_first(line, ' ') {
        None => Err(ParseError::MissingNameDelimiter),
        Some((status, rest)) => match split_first(rest, ' ') {
            None => Err(ParseError::MissingArchitectureDelimiter),
            Some((name, rest)) => match split_first(rest, ' ') {
                None => Err(ParseError::MissingVersionDelimiter),
                Some((architecture, version)) => Ok(
                    PackageView { status, name: unqualified_name(name), architecture, version },
                ),
            },
        },
    }
}

/// The installed packages of a listing, in order, or the error of its first
/// malformed line.
pub open spec fn installed_packages(lines: Seq<Seq<char>>) -> Result<Seq<PackageView>, ParseError>
    decreases lines.len(),
{
    if lines.len() == 0 {
        Ok(Seq::empty())
    } else {
        match installed_packages(lines.drop_last()) {
            Err(e) => Err(e),
            Ok(ps) => match parsed_line(lines.last()) {
                Err(e) => Err(e),
                Ok(p) => Ok(
                    if p.status == installed_status() {
                        ps.push(p)
                    } else {
                        ps
                    },
                ),
            },
        }
    }
}

/// The views of a list of packages.
pub open spec fn package_views(ps: Seq<DpkgPackage>) -> Seq<PackageView> {
    ps.map_values(|p: DpkgPackage| p@)
}

/// The character sequences of a list of lines.
pub open spec fn line_views(lines: Seq<String>) -> Seq<Seq<char>> {
    lines.map_values(|l: String| l@)
}

impl DpkgPackage {
    /// Whether the package is fully present on the system.
    pub fn is_installed(&self) -> (r: bool)
        ensures
            r == (self.status@ == installed_status()),
    {
        proof {
            reveal_strlit("installed");
            assert("installed"@ =~= installed_status());
        }
        same_text(self.status.as_str(), "installed")
    }

    /// Parses one line of the listing.
    pub fn from_str(line: &str) -> (r: Result<DpkgPackage, ParseError>)
        ensures
            match r {
                Ok(p) => parsed_line(line@) == Ok::<PackageView, ParseError>(p@),
                Err(e) => parsed_line(line@) == Err::<PackageView, ParseError>(e),
            },
    {
        let (status, rest) = match split_once_first(line, ' ') {
            Some(parts) => parts,
            None => return Err(ParseError::MissingNameDelimiter),
        };
        let (name, rest) = match split_once_first(rest.as_str(), ' ') {
            Some(parts) => parts,
            None => return Err(ParseError::MissingArchitectureDelimiter),
        };
        let name = match split_once_last(name.as_str(), ':') {
            Some((base, _)) => base,
            None => name,
        };
        let (architecture, version) = match split_once_first(rest.as_str(), ' ') {
            Some(parts) => parts,
            None => return Err(ParseError::MissingVersionDelimiter),
        };
        Ok(DpkgPackage { status, name, architecture, version })
    }
}

/// Parses a listing, one line per package, and keeps the installed packages
/// in their order. The first malformed line fails the whole listing.
pub fn parse_installed(lines: &Vec<String>) -> (r: Result<Vec<DpkgPackage>, ParseError>)
    ensures
        match r {
            Ok(ps) => installed_packages(line_views(lines@)) == Ok::<Seq<PackageView>, ParseError>(
                package_views(ps@),
            ),
            Err(e) => installed_packages(line_views(lines@)) == Err::<Seq<PackageView>, ParseError>(e),
        },
        r matches Ok(ps) ==> forall|i: int|
            0 <= i < ps@.len() ==> #[trigger] ps@[i].status@ == installed_status(),
{
    let ghost all = line_views(lines@);
    let mut pkgs: Vec<DpkgPackage> = Vec::new();
    let mut i: usize = 0;
    proof {
        assert(all.take(0) =~= Seq::<Seq<char>>::empty());
        assert(package_views(pkgs@) =~= Seq::<PackageView>::empty());
    }
    while i < lines.len()
        invariant
            i <= lines@.len(),
            all == line_views(lines@),
            installed_packages(all.take(i as int)) == Ok::<
                Seq<PackageView>,
                ParseError,
            >(package_views(pkgs@)),
            forall|j: int| 0 <= j < pkgs@.len() ==> #[trigger] pkgs@[j].status@ == installed_status(),
        decreases lines@.len() - i,
    {
        let ghost before = pkgs@;
        proof {
            assert(all.take(i + 1).drop_last() =~= all.take(i as int));
            assert(all.take(i + 1).last() == lines@[i as int]@);
        }
        let pkg = match DpkgPackage::from_str(lines[i].as_str()) {
            Ok(pkg) => pkg,
            Err(e) => {
                proof {
                    assert(installed_packages(all.take(i + 1)) == Err::<Seq<PackageView>, ParseError>(e));
                    lemma_error_persists(all, i as int + 1);
                }
                return Err(e);
            },
        };
        if pkg.is_installed() {
            pkgs.push(pkg);
            proof {
                assert(package_views(pkgs@) =~= package_views(before).push(pkgs@.last()@));
            }
        }
        i = i + 1;
    }
    proof {
        assert(all.take(i as int) =~= all);
    }
    Ok(pkgs)
}

/// Once a prefix of the listing fails, the whole listing fails the same way.
proof fn lemma_error_persists(lines: Seq<Seq<char>>, k: int)
    requires
        0 <= k <= lines.len(),
        installed_packages(lines.take(k)) is Err,
    ensures
        installed_packages(lines) == installed_packages(lines.take(k)),
    decreases lines.len() - k,
{
    if k < lines.len() {
        assert(lines.take(k + 1).drop_last() =~= lines.take(k));
        lemma_error_persists(lines, k + 1);
    } else {
        assert(lines.take(k) =~= lines);
    }
}

/// A well-formed line gives back its four fields, the name without an
/// `:arch` qualifier, whatever the qualifier says; the version may hold
/// spaces.
pub proof fn lemma_parse_round_trip(
    status: Seq<char>,
    base: Seq<char>,
    qualifier: Option<Seq<char>>,
    architecture: Seq<char>,
    version: Seq<char>,
)
    requires
        !status.contains(' '),
        !base.contains(' '),
        !architecture.contains(' '),
        match qualifier {
            Some(q) => !q.contains(' ') && !q.contains(':'),
            None => !base.contains(':'),
        },
    ensures
        ({
            let name = match qualifier {
                Some(q) => base + seq![':'] + q,
                None => base,
            };
            parsed_line(status + seq![' '] + name + seq![' '] + architecture + seq![' '] + version)
                == Ok::<PackageView, ParseError>(
                PackageView { status, name: base, architecture, version },
            )
        }),
{
    let name = match qualifier {
        Some(q) => base + seq![':'] + q,
        None => base,
    };
    match qualifier {
        Some(q) => {
            lemma_split_last_joined(base, q, ':');
            assert(!name.contains(' ')) by {
                if name.contains(' ') {
                    let j = choose|j: int| 0 <= j < name.len() && name[j] == ' ';
                    if j < base.len() {
                        assert(base[j] == ' ');
                    } else if j > base.len() {
                        assert(q[j - base.len() - 1] == ' ');
                    }
                }
            }
        },
        None => {
            lemma_split_last_absent(base, ':');
        },
    }
    let rest2 = architecture + seq![' '] + version;
    let rest1 = name + seq![' '] + rest2;
    let line = status + seq![' '] + name + seq![' '] + architecture + seq![' '] + version;
    assert(line =~= status + seq![' '] + rest1);
    assert(rest1 =~= name + seq![' '] + rest2);
    lemma_split_first_joined(status, rest1, ' ');
    lemma_split_first_joined(name, rest2, ' ');
    lemma_split_first_joined(architecture, version, ' ');
}

/// A listing yields only installed packages.
pub proof fn lemma_only_installed(lines: Seq<Seq<char>>)
    ensures
        installed_packages(lines) matches Ok(ps) ==> forall|i: int|
            0 <= i < ps.len() ==> #[trigger] ps[i].status == installed_status(),
    decreases lines.len(),
{
    if lines.len() > 0 {
        lemma_only_installed(lines.drop_last());
    }
}

} // verus!
