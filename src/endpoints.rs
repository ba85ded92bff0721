//! Which rebuilderd endpoints to query, and where their package lists are.
use crate::args::Args;
use vstd::prelude::*;
use vstd::string::*;

verus! {

/// The host under which each architecture has its own rebuilderd instance.
pub open spec fn default_base() -> Seq<char> {
    seq!['h', 't', 't', 'p', 's', ':', '/', '/', 'r', 'e', 'p', 'r', 'o', 'd', 'u', 'c', 'e', '.', 'd', 'e', 'b', 'i', 'a', 'n', '.', 'n', 'e', 't', '/']
}

/// The path of the package list under an endpoint.
pub open spec fn list_path() -> Seq<char> {
    seq!['/', 'a', 'p', 'i', '/', 'v', '0', '/', 'p', 'k', 'g', 's', '/', 'l', 'i', 's', 't']
}

/// The architecture of the packages that suit every architecture.
pub open spec fn arch_all() -> Seq<char> {
    seq!['a', 'l', 'l']
}

/// The default endpoint of an architecture.
pub open spec fn default_endpoint(arch: Seq<char>) -> Seq<char> {
    default_base() + arch
}

/// A URL without the slashes it ends with.
pub open spec fn without_trailing_slashes(url: Seq<char>) -> Seq<char>
    decreases url.len(),
{
    if url.len() > 0 && url.last() == '/' {
        without_trailing_slashes(url.drop_last())
    } else {
        url
    }
}

/// The character sequences of a list of texts.
pub open spec fn text_views(v: Seq<String>) -> Seq<Seq<char>> {
    v.map_values(|s: String| s@)
}

/// The endpoints to query, in order: an explicit URL alone; else the
/// default endpoint of an explicit architecture and that of `all`; else
/// those of the native architecture, of each foreign one and of `all`.
pub open spec fn endpoints_for(
    url: Option<Seq<char>>,
    arch: Option<Seq<char>>,
    native: Seq<char>,
    foreign: Seq<Seq<char>>,
) -> Seq<Seq<char>> {
    match url {
        Some(u) => seq![without_trailing_slashes(u)],
        None => match arch {
            Some(a) => seq![default_endpoint(a), default_endpoint(arch_all())],
            None => seq![default_endpoint(native)] + foreign.map_values(
                |f: Seq<char>| default_endpoint(f),
            ) + seq![default_endpoint(arch_all())],
        },
    }
}

/// The view of an optional text.
pub open spec fn option_view(o: Option<String>) -> Option<Seq<char>> {
    match o {
        Some(s) => Some(s@),
        None => None,
    }
}

/// The default endpoint of an architecture.
pub fn default_arch_rebuilderd(arch: String) -> (r: String)
    ensures
        r@ == default_endpoint(arch@),
{
    let base = "https://reproduce.debian.net/";
    proof {
        reveal_strlit("https://reproduce.debian.net/");
        assert(base@ =~= default_base());
    }
    base.to_owned().concat(arch.as_str())
}

/// Where the package list of an endpoint is.
pub fn list_url(endpoint: &str) -> (r: String)
    ensures
        r@ == endpoint@ + list_path(),
{
    let path = "/api/v0/pkgs/list";
    proof {
        reveal_strlit("/api/v0/pkgs/list");
        assert(path@ =~= list_path());
    }
    endpoint.to_owned().concat(path)
}

/// Drops the slashes that a URL ends with.
pub fn trim_trailing_slashes(url: &str) -> (r: String)
    ensures
        r@ == without_trailing_slashes(url@),
{
    let n = url.unicode_len();
    let mut i: usize = n;
    assert(url@.take(n as int) =~= url@);
    while i > 0 && url.get_char(i - 1) == '/'
        invariant
            n == url@.len(),
            i <= n,
            without_trailing_slashes(url@) == without_trailing_slashes(url@.take(i as int)),
        decreases i,
    {
        proof {
            assert(url@.take(i as int).drop_last() =~= url@.take(i - 1));
        }
        i = i - 1;
    }
    let r = url.substring_char(0, i).to_owned();
    proof {
        assert(r@ =~= url@.take(i as int));
        if i > 0 {
            assert(url@.take(i as int).last() == url@[i - 1]);
        }
    }
    r
}

/// The endpoints that the options fix without detecting architectures, or
/// `None` when neither a URL nor an architecture is given.
pub fn explicit_endpoints(args: &Args) -> (r: Option<Vec<String>>)
    ensures
        r is None <==> (args.rebuilderd is None && args.architecture is None),
        r matches Some(v) ==> forall|native: Seq<char>, foreign: Seq<Seq<char>>|
            text_views(v@) == #[trigger] endpoints_for(
                option_view(args.rebuilderd),
                option_view(args.architecture),
                native,
                foreign,
            ),
{
    match &args.rebuilderd {
        Some(url) => {
            let mut v: Vec<String> = Vec::new();
            v.push(trim_trailing_slashes(url.as_str()));
            assert(text_views(v@) =~= seq![without_trailing_slashes(url@)]);
            Some(v)
        },
        None => match &args.architecture {
            Some(arch) => {
                let all = "all";
                proof {
                    reveal_strlit("all");
                    assert(all@ =~= arch_all());
                }
                let mut v: Vec<String> = Vec::new();
                v.push(default_arch_rebuilderd(arch.clone()));
                v.push(default_arch_rebuilderd(all.to_owned()));
                assert(text_views(v@) =~= seq![default_endpoint(arch@), default_endpoint(arch_all())]);
                Some(v)
            },
            None => None,
        },
    }
}

/// The endpoints of the detected architectures: the native one first, then
/// each foreign one in the order given, then `all`.
pub fn detected_endpoints(native: &str, foreign: &Vec<String>) -> (r: Vec<String>)
    ensures
        text_views(r@) == endpoints_for(None, None, native@, text_views(foreign@)),
{
    let ghost fs = text_views(foreign@).map_values(|f: Seq<char>| default_endpoint(f));
    let mut v: Vec<String> = Vec::new();
    v.push(default_arch_rebuilderd(native.to_owned()));
    let mut i: usize = 0;
    while i < foreign.len()
        invariant
            i <= foreign@.len(),
            fs == text_views(foreign@).map_values(|f: Seq<char>| default_endpoint(f)),
            text_views(v@) =~= seq![default_endpoint(native@)] + fs.take(i as int),
        decreases foreign@.len() - i,
    {
        let ghost before = v@;
        v.push(default_arch_rebuilderd(foreign[i].clone()));
        proof {
            assert(text_views(v@) =~= text_views(before).push(fs[i as int]));
            assert(fs.take(i + 1) =~= fs.take(i as int).push(fs[i as int]));
        }
        i = i + 1;
    }
    let all = "all";
    proof {
        reveal_strlit("all");
        assert(all@ =~= arch_all());
        assert(fs.take(i as int) =~= fs);
    }
    v.push(default_arch_rebuilderd(all.to_owned()));
    assert(text_views(v@) =~= seq![default_endpoint(native@)] + fs + seq![default_endpoint(arch_all())]);
    v
}

/// Precedence of the endpoint options: an explicit URL gives that one
/// endpoint whatever the architectures; else an explicit architecture gives
/// two, its own and then that of `all`; else the native architecture, each
/// foreign one and `all`, in that order.
pub proof fn lemma_endpoint_precedence(
    url: Option<Seq<char>>,
    arch: Option<Seq<char>>,
    native: Seq<char>,
    foreign: Seq<Seq<char>>,
)
    ensures
        url matches Some(u) ==> endpoints_for(url, arch, native, foreign) == seq![without_trailing_slashes(u)],
        url is None ==> (arch matches Some(a) ==> endpoints_for(url, arch, native, foreign) == seq![
            default_endpoint(a),
            default_endpoint(arch_all()),
        ]),
        url is None && arch is None ==> {
            let e = endpoints_for(url, arch, native, foreign);
            &&& e.len() == foreign.len() + 2
            &&& e[0] == default_endpoint(native)
            &&& forall|i: int| 0 <= i < foreign.len() ==> e[i + 1] == default_endpoint(#[trigger] foreign[i])
            &&& e[e.len() - 1] == default_endpoint(arch_all())
        },
{
}

} // verus!
