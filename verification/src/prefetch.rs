use vstd::prelude::*;
use vstd::string::StringExecFns;
use crate::cache::{distinct_firsts, CacheMap, PackageId};
use crate::errors::{exit_code, exit_code_spec, Error};
use crate::strings::{trim, trim_spec, utf8_of, utf8_string};

verus! {

/// Where a package's content comes from, as plain values.
pub enum SourceView {
    /// A registry download, addressed by package name and version.
    CratesIo { name: Seq<char>, version: Seq<char>, sha256: Option<Seq<char>> },
    /// A version-control checkout, addressed by repository and revision.
    Git { url: Seq<char>, rev: Seq<char>, git_ref: Option<Seq<char>>, sha256: Option<Seq<char>> },
    /// A source that never needs external hashing.
    Other,
}

/// Where a package's content comes from.
#[derive(Debug)]
pub enum ResolvedSource {
    /// A registry download, addressed by package name and version.
    CratesIo { name: String, version: String, sha256: Option<String> },
    /// A version-control checkout, addressed by repository and revision,
    /// with an optional branch-name hint.
    Git { url: String, rev: String, git_ref: Option<String>, sha256: Option<String> },
    /// A source that never needs external hashing: a local path or an
    /// already verified artifact.
    Other,
}

pub open spec fn opt_view(o: Option<String>) -> Option<Seq<char>> {
    match o {
        Some(s) => Some(s@),
        None => None,
    }
}

impl View for ResolvedSource {
    type V = SourceView;

    open spec fn view(&self) -> SourceView {
        match self {
            ResolvedSource::CratesIo { name, version, sha256 } => SourceView::CratesIo {
                name: name@,
                version: version@,
                sha256: opt_view(*sha256),
            },
            ResolvedSource::Git { url, rev, git_ref, sha256 } => SourceView::Git {
                url: url@,
                rev: rev@,
                git_ref: opt_view(*git_ref),
                sha256: opt_view(*sha256),
            },
            ResolvedSource::Other => SourceView::Other,
        }
    }
}

impl DeepView for ResolvedSource {
    type V = SourceView;

    open spec fn deep_view(&self) -> SourceView {
        self.view()
    }
}

/// Whether this source must go through the prefetch step: a registry
/// source without a hash, or any version-control source.
pub open spec fn needs_prefetch_spec(s: SourceView) -> bool {
    match s {
        SourceView::CratesIo { sha256, .. } => sha256 is None,
        SourceView::Git { .. } => true,
        SourceView::Other => false,
    }
}

impl ResolvedSource {
    /// Whether this source must go through the prefetch step.
    pub fn needs_prefetch(&self) -> (r: bool)
        ensures
            r == needs_prefetch_spec(self@),
    {
        match self {
            ResolvedSource::CratesIo { sha256: None, .. } => true,
            ResolvedSource::CratesIo { .. } => false,
            ResolvedSource::Git { .. } => true,
            ResolvedSource::Other => false,
        }
    }

    /// This source with its hash set.
    pub fn with_sha256(&self, hash: String) -> (r: ResolvedSource)
        ensures
            r@ == with_sha256_spec(self@, hash@),
    {
        match self {
            ResolvedSource::CratesIo { name, version, .. } => ResolvedSource::CratesIo {
                name: name.clone(),
                version: version.clone(),
                sha256: Some(hash),
            },
            ResolvedSource::Git { url, rev, git_ref, .. } => ResolvedSource::Git {
                url: url.clone(),
                rev: rev.clone(),
                git_ref: match git_ref {
                    Some(r) => Some(r.clone()),
                    None => None,
                },
                sha256: Some(hash),
            },
            ResolvedSource::Other => ResolvedSource::Other,
        }
    }
}

/// The source with its hash field set; a source that carries no hash is
/// returned unchanged.
pub open spec fn with_sha256_spec(s: SourceView, hash: Seq<char>) -> SourceView {
    match s {
        SourceView::CratesIo { name, version, .. } => SourceView::CratesIo {
            name,
            version,
            sha256: Some(hash),
        },
        SourceView::Git { url, rev, git_ref, .. } => SourceView::Git {
            url,
            rev,
            git_ref,
            sha256: Some(hash),
        },
        SourceView::Other => SourceView::Other,
    }
}

/// One entry per resolved package: its identity and its source.
#[derive(Debug)]
pub struct CrateDerivation {
    pub package_id: PackageId,
    pub source: ResolvedSource,
}

/// A package entry as plain values.
pub struct DerivationView {
    pub package_id: Seq<char>,
    pub source: SourceView,
}

impl View for CrateDerivation {
    type V = DerivationView;

    open spec fn view(&self) -> DerivationView {
        DerivationView { package_id: self.package_id@, source: self.source@ }
    }
}

impl DeepView for CrateDerivation {
    type V = DerivationView;

    open spec fn deep_view(&self) -> DerivationView {
        self.view()
    }
}

/// An external command to run: program name and arguments.
#[derive(Debug)]
pub struct FetchCommand {
    pub program: String,
    pub args: Vec<String>,
}

/// An external command as plain values.
pub struct CommandView {
    pub program: Seq<char>,
    pub args: Seq<Seq<char>>,
}

impl View for FetchCommand {
    type V = CommandView;

    open spec fn view(&self) -> CommandView {
        CommandView { program: self.program@, args: self.args.deep_view() }
    }
}

/// The download URL of a registry package.
pub open spec fn registry_url_spec(name: Seq<char>, version: Seq<char>) -> Seq<char> {
    "https://crates.io/api/v1/crates/"@ + name + "/"@ + version + "/download"@
}

/// The artifact name handed to the URL prefetcher.
pub open spec fn registry_artifact_spec(name: Seq<char>, version: Seq<char>) -> Seq<char> {
    name + "-"@ + version
}

/// The URL prefetcher invocation for a registry package.
pub open spec fn registry_command_spec(name: Seq<char>, version: Seq<char>) -> CommandView {
    CommandView {
        program: "nix-prefetch-url"@,
        args: seq![
            registry_url_spec(name, version),
            "--name"@,
            registry_artifact_spec(name, version),
        ],
    }
}

/// The repository prefetcher invocation for a version-control package.
pub open spec fn git_command_spec(
    url: Seq<char>,
    rev: Seq<char>,
    git_ref: Option<Seq<char>>,
) -> CommandView {
    CommandView {
        program: "nix-prefetch-git"@,
        args: {
            let base = seq!["--url"@, url, "--fetch-submodules"@, "--rev"@, rev];
            match git_ref {
                Some(r) => base + seq!["--branch-name"@, r],
                None => base,
            }
        },
    }
}

/// The prefetch invocation for a source that needs one.
pub open spec fn command_for(s: SourceView) -> CommandView {
    match s {
        SourceView::CratesIo { name, version, .. } => registry_command_spec(name, version),
        SourceView::Git { url, rev, git_ref, .. } => git_command_spec(url, rev, git_ref),
        SourceView::Other => CommandView { program: Seq::empty(), args: Seq::empty() },
    }
}

/// Constructs the external prefetch command for the given source:
/// deterministic URL and artifact name for a registry package, repository,
/// revision and optional branch hint for a version-control package.  A
/// source of any other kind cannot be prefetched; asking for its command
/// is a contract violation reported as `UnexpectedSourceKind`.
pub fn prefetch_command(source: &ResolvedSource) -> (r: Result<FetchCommand, Error>)
    ensures
        source@ is Other ==> r == Err::<FetchCommand, Error>(Error::UnexpectedSourceKind),
        !(source@ is Other) ==> (r matches Ok(c) && c@ == command_for(source@)),
{
    match source {
        ResolvedSource::CratesIo { name, version, .. } => {
            let url = String::from_str("https://crates.io/api/v1/crates/").concat(
                name.as_str(),
            ).concat("/").concat(version.as_str()).concat("/download");
            let artifact = String::from_str(name.as_str()).concat("-").concat(version.as_str());
            let mut args: Vec<String> = Vec::new();
            args.push(url);
            args.push(String::from_str("--name"));
            args.push(artifact);
            let c = FetchCommand { program: String::from_str("nix-prefetch-url"), args };
            proof {
                assert(c@.args =~~= registry_command_spec(name@, version@).args);
            }
            Ok(c)
        },
        ResolvedSource::Git { url, rev, git_ref, .. } => {
            let mut args: Vec<String> = Vec::new();
            args.push(String::from_str("--url"));
            args.push(url.clone());
            args.push(String::from_str("--fetch-submodules"));
            args.push(String::from_str("--rev"));
            args.push(rev.clone());
            match git_ref {
                Some(r) => {
                    args.push(String::from_str("--branch-name"));
                    args.push(r.clone());
                },
                None => {},
            }
            let c = FetchCommand { program: String::from_str("nix-prefetch-git"), args };
            proof {
                assert(c@.args =~~= git_command_spec(url@, rev@, opt_view(*git_ref)).args);
            }
            Ok(c)
        },
        ResolvedSource::Other => Err(Error::UnexpectedSourceKind),
    }
}

/// Interprets a finished external command: a non-success status fails with
/// its exit code, and on success the standard output is decoded as UTF-8
/// and trimmed of surrounding whitespace.
pub fn interpret_command_output(success: bool, code: Option<i32>, stdout: Vec<u8>) -> (r: Result<
    String,
    Error,
>)
    ensures
        !success ==> r == Err::<String, Error>(Error::ProcessExitedNonzero(exit_code_spec(code))),
        success ==> match r {
            Ok(t) => (utf8_of(stdout@) matches Some(s) && t@ == trim_spec(s)),
            Err(e) => e == Error::OutputNotDecodable && utf8_of(stdout@) is None,
        },
{
    if !success {
        return Err(Error::ProcessExitedNonzero(exit_code(code)));
    }
    match utf8_string(stdout) {
        Some(s) => Ok(trim(s.as_str())),
        None => Err(Error::OutputNotDecodable),
    }
}

/// The `sha256` field of the JSON object that the text denotes, where the
/// text parses as a JSON object with a string under that key.
pub uninterp spec fn json_sha256_of(s: Seq<char>) -> Option<Seq<char>>;

/// Relies on serde_json::from_str, Value::get and Value::as_str: parsing
/// is deterministic in the input text, and the extraction yields the
/// string under the "sha256" key where the text is a JSON object with
/// such a string member.
#[verifier::external_body]
fn extract_json_sha256(s: &str) -> (r: Option<String>)
    ensures
        r.deep_view() == json_sha256_of(s@),
{
    match serde_json::from_str::<serde_json::Value>(s) {
        Ok(v) => match v.get("sha256") {
            Some(f) => f.as_str().map(|t| t.to_string()),
            None => None,
        },
        Err(_) => None,
    }
}

/// Extracts the content hash from the repository prefetcher's JSON
/// payload; a payload without a `sha256` string member is not decodable.
pub fn git_hash_from_json(text: &str) -> (r: Result<String, Error>)
    ensures
        match r {
            Ok(h) => json_sha256_of(text@) == Some(h@),
            Err(e) => e == Error::OutputNotDecodable && json_sha256_of(text@) is None,
        },
{
    match extract_json_sha256(text) {
        Some(h) => Ok(h),
        None => Err(Error::OutputNotDecodable),
    }
}

/// Whether the package must be handed to an external fetch in this run:
/// its source needs a prefetch and its identity has no cached hash.
pub open spec fn to_fetch(c: DerivationView, cache: Map<Seq<char>, Seq<char>>) -> bool {
    needs_prefetch_spec(c.source) && !cache.contains_key(c.package_id)
}

/// The packages of the run that must be handed to an external fetch, in
/// input order.
pub open spec fn plan_views(s: Seq<DerivationView>, cache: Map<Seq<char>, Seq<char>>) -> Seq<
    DerivationView,
>
    decreases s.len(),
{
    if s.len() == 0 {
        Seq::empty()
    } else {
        let rest = plan_views(s.drop_last(), cache);
        if to_fetch(s.last(), cache) {
            rest.push(s.last())
        } else {
            rest
        }
    }
}

/// One unit of external fetch work: the package's identity and the
/// command that resolves its hash.
#[derive(Debug)]
pub struct FetchRequest {
    pub package_id: PackageId,
    pub command: FetchCommand,
}

/// Decides the work set of a run: one request per package whose source
/// needs a prefetch and whose identity the loaded cache does not know, in
/// input order, each carrying the command for its own source.
pub fn fetch_plan(packages: &Vec<CrateDerivation>, cache: &CacheMap) -> (r: Vec<FetchRequest>)
    requires
        cache.wf(),
    ensures
        ({
            let pv = plan_views(packages.deep_view(), cache.as_map());
            r@.len() == pv.len() && forall|i: int|
                0 <= i < pv.len() ==> (#[trigger] r@[i]).package_id@ == pv[i].package_id
                    && r@[i].command@ == command_for(pv[i].source)
        }),
{
    let ghost dv = packages.deep_view();
    let mut r: Vec<FetchRequest> = Vec::new();
    let n = packages.len();
    let mut i: usize = 0;
    while i < n
        invariant
            0 <= i <= n,
            n == packages@.len(),
            dv == packages.deep_view(),
            cache.wf(),
            ({
                let pv = plan_views(dv.take(i as int), cache.as_map());
                r@.len() == pv.len() && forall|j: int|
                    0 <= j < pv.len() ==> (#[trigger] r@[j]).package_id@ == pv[j].package_id
                        && r@[j].command@ == command_for(pv[j].source)
            }),
        decreases n - i,
    {
        let p = &packages[i];
        proof {
            assert(dv[i as int] == p.deep_view());
            assert(dv.take(i as int + 1).drop_last() =~= dv.take(i as int));
            assert(dv.take(i as int + 1).last() == dv[i as int]);
        }
        if p.source.needs_prefetch() && !cache.contains(&p.package_id) {
            let cmd = match prefetch_command(&p.source) {
                Ok(c) => c,
                Err(_) => {
                    proof {
                        assert(false);
                    }
                    vstd::pervasive::unreached()
                },
            };
            r.push(FetchRequest { package_id: p.package_id.dup(), command: cmd });
        }
        i = i + 1;
    }
    proof {
        assert(dv.take(n as int) =~= dv);
    }
    r
}

fn opt_str_eq(a: &Option<String>, b: &Option<String>) -> (r: bool)
    ensures
        r == (opt_view(*a) == opt_view(*b)),
{
    match (a, b) {
        (None, None) => true,
        (Some(x), Some(y)) => *x == *y,
        _ => false,
    }
}

/// Equality of source descriptors, decided on their plain values.
pub fn source_eq(a: &ResolvedSource, b: &ResolvedSource) -> (r: bool)
    ensures
        r == (a@ == b@),
{
    match (a, b) {
        (
            ResolvedSource::CratesIo { name: n1, version: v1, sha256: s1 },
            ResolvedSource::CratesIo { name: n2, version: v2, sha256: s2 },
        ) => *n1 == *n2 && *v1 == *v2 && opt_str_eq(s1, s2),
        (
            ResolvedSource::Git { url: u1, rev: r1, git_ref: g1, sha256: s1 },
            ResolvedSource::Git { url: u2, rev: r2, git_ref: g2, sha256: s2 },
        ) => *u1 == *u2 && *r1 == *r2 && opt_str_eq(g1, g2) && opt_str_eq(s1, s2),
        (ResolvedSource::Other, ResolvedSource::Other) => true,
        _ => false,
    }
}

/// The number of distinct sources among the packages that must be handed
/// to an external fetch, counting each source at its first occurrence.
pub open spec fn unique_missing_count(
    s: Seq<DerivationView>,
    cache: Map<Seq<char>, Seq<char>>,
) -> nat
    decreases s.len(),
{
    if s.len() == 0 {
        0
    } else {
        let rest = unique_missing_count(s.drop_last(), cache);
        if to_fetch(s.last(), cache) && !(exists|j: int|
            0 <= j < s.len() - 1 && to_fetch(#[trigger] s[j], cache) && s[j].source
                == s.last().source) {
            rest + 1
        } else {
            rest
        }
    }
}

/// The total that the progress indicator counts towards: the number of
/// distinct sources among the packages lacking a cached hash.
pub fn progress_total(packages: &Vec<CrateDerivation>, cache: &CacheMap) -> (r: usize)
    requires
        cache.wf(),
    ensures
        r == unique_missing_count(packages.deep_view(), cache.as_map()),
{
    let ghost dv = packages.deep_view();
    let n = packages.len();
    let mut total: usize = 0;
    let mut i: usize = 0;
    while i < n
        invariant
            0 <= i <= n,
            n == packages@.len(),
            dv == packages.deep_view(),
            cache.wf(),
            total == unique_missing_count(dv.take(i as int), cache.as_map()),
            total <= i,
        decreases n - i,
    {
        proof {
            assert(dv[i as int] == packages@[i as int].deep_view());
            assert(dv.take(i as int + 1).drop_last() =~= dv.take(i as int));
            assert(dv.take(i as int + 1).last() == dv[i as int]);
        }
        if packages[i].source.needs_prefetch() && !cache.contains(&packages[i].package_id) {
            let mut dup = false;
            let mut j: usize = 0;
            while j < i
                invariant
                    0 <= j <= i,
                    i < n,
                    n == packages@.len(),
                    dv == packages.deep_view(),
                    cache.wf(),
                    dup == exists|k: int|
                        0 <= k < j && to_fetch(#[trigger] dv[k], cache.as_map()) && dv[k].source
                            == dv[i as int].source,
                decreases i - j,
            {
                proof {
                    assert(dv[j as int] == packages@[j as int].deep_view());
                }
                if packages[j].source.needs_prefetch() && !cache.contains(&packages[j].package_id)
                    && source_eq(&packages[j].source, &packages[i].source) {
                    proof {
                        assert(to_fetch(dv[j as int], cache.as_map()) && dv[j as int].source
                            == dv[i as int].source);
                    }
                    dup = true;
                }
                j = j + 1;
            }
            proof {
                let t = dv.take(i as int + 1);
                assert forall|k: int| 0 <= k < i implies t[k] == dv[k] by {}
                assert(dup == exists|k: int|
                    0 <= k < i && to_fetch(#[trigger] t[k], cache.as_map()) && t[k].source
                        == t.last().source);
            }
            if !dup {
                total = total + 1;
            }
        }
        i = i + 1;
    }
    proof {
        assert(dv.take(n as int) =~= dv);
    }
    total
}

/// The hash paired with the identity in the fetch results, taking the
/// first match.
pub open spec fn lookup_pairs(s: Seq<(Seq<char>, Seq<char>)>, k: Seq<char>) -> Option<Seq<char>>
    decreases s.len(),
{
    if s.len() == 0 {
        None
    } else if s[0].0 == k {
        Some(s[0].1)
    } else {
        lookup_pairs(s.drop_first(), k)
    }
}

fn lookup_fetched(fetched: &Vec<(PackageId, String)>, id: &PackageId) -> (r: Option<String>)
    ensures
        r.deep_view() == lookup_pairs(fetched.deep_view(), id@),
{
    let ghost fv = fetched.deep_view();
    let n = fetched.len();
    proof {
        assert(fv.skip(0) =~= fv);
    }
    let mut i: usize = 0;
    while i < n
        invariant
            0 <= i <= n,
            n == fetched@.len(),
            fv == fetched.deep_view(),
            lookup_pairs(fv, id@) == lookup_pairs(fv.skip(i as int), id@),
        decreases n - i,
    {
        proof {
            assert(fv.skip(i as int)[0] == fv[i as int]);
            assert(fv[i as int] == (fetched@[i as int].0@, fetched@[i as int].1@));
        }
        if fetched[i].0.same(id) {
            return Some(fetched[i].1.clone());
        }
        proof {
            assert(fv.skip(i as int).drop_first() =~= fv.skip(i as int + 1));
        }
        i = i + 1;
    }
    proof {
        assert(fv.skip(n as int) =~= Seq::<(Seq<char>, Seq<char>)>::empty());
    }
    None
}

/// Whether the fetch results pair a hash with every package that the run
/// must fetch externally.
pub open spec fn covers(
    s: Seq<DerivationView>,
    cache: Map<Seq<char>, Seq<char>>,
    results: Seq<(Seq<char>, Seq<char>)>,
) -> bool {
    forall|i: int|
        0 <= i < s.len() && to_fetch(#[trigger] s[i], cache) ==> lookup_pairs(
            results,
            s[i].package_id,
        ) is Some
}

/// Checks, before reassembly, that the fetch results cover the whole work
/// set of the run.
pub fn results_cover(
    packages: &Vec<CrateDerivation>,
    cache: &CacheMap,
    fetched: &Vec<(PackageId, String)>,
) -> (r: bool)
    requires
        cache.wf(),
    ensures
        r == covers(packages.deep_view(), cache.as_map(), fetched.deep_view()),
{
    let ghost dv = packages.deep_view();
    let n = packages.len();
    let mut i: usize = 0;
    while i < n
        invariant
            0 <= i <= n,
            n == packages@.len(),
            dv == packages.deep_view(),
            cache.wf(),
            forall|k: int|
                0 <= k < i && to_fetch(#[trigger] dv[k], cache.as_map()) ==> lookup_pairs(
                    fetched.deep_view(),
                    dv[k].package_id,
                ) is Some,
        decreases n - i,
    {
        proof {
            assert(dv[i as int] == packages@[i as int].deep_view());
        }
        if packages[i].source.needs_prefetch() && !cache.contains(&packages[i].package_id) {
            if lookup_fetched(fetched, &packages[i].package_id).is_none() {
                proof {
                    assert(to_fetch(dv[i as int], cache.as_map()) && !(lookup_pairs(
                        fetched.deep_view(),
                        dv[i as int].package_id,
                    ) is Some));
                }
                return false;
            }
        }
        i = i + 1;
    }
    true
}

/// Pairwise distinct package identities: what makes the identity a key.
pub open spec fn distinct_ids(s: Seq<DerivationView>) -> bool {
    forall|i: int, j: int| 0 <= i < j < s.len() ==> s[i].package_id != s[j].package_id
}

/// The hash the run resolves for one package: the cached hash, trimmed,
/// where the identity is cached, else the hash its fetch brought back.
pub open spec fn resolved_hash(
    c: DerivationView,
    cache: Map<Seq<char>, Seq<char>>,
    results: Seq<(Seq<char>, Seq<char>)>,
) -> Option<Seq<char>> {
    if cache.contains_key(c.package_id) {
        Some(trim_spec(cache[c.package_id]))
    } else {
        lookup_pairs(results, c.package_id)
    }
}

/// The identity-to-hash mapping a run reconciles: one entry per package
/// whose source needs a prefetch, each under its own identity.
pub open spec fn run_map(
    s: Seq<DerivationView>,
    cache: Map<Seq<char>, Seq<char>>,
    results: Seq<(Seq<char>, Seq<char>)>,
) -> Map<Seq<char>, Seq<char>>
    decreases s.len(),
{
    if s.len() == 0 {
        Map::empty()
    } else {
        let m = run_map(s.drop_last(), cache, results);
        let c = s.last();
        if needs_prefetch_spec(c.source) {
            match resolved_hash(c, cache, results) {
                Some(h) => m.insert(c.package_id, h),
                None => m,
            }
        } else {
            m
        }
    }
}

proof fn lemma_run_map_dom(
    s: Seq<DerivationView>,
    cache: Map<Seq<char>, Seq<char>>,
    results: Seq<(Seq<char>, Seq<char>)>,
)
    ensures
        forall|k: Seq<char>|
            run_map(s, cache, results).contains_key(k) ==> exists|j: int|
                0 <= j < s.len() && (#[trigger] s[j]).package_id == k && needs_prefetch_spec(
                    s[j].source,
                ),
    decreases s.len(),
{
    if s.len() > 0 {
        let d = s.drop_last();
        lemma_run_map_dom(d, cache, results);
        assert forall|k: Seq<char>| run_map(s, cache, results).contains_key(k) implies exists|
            j: int,
        |
            0 <= j < s.len() && (#[trigger] s[j]).package_id == k && needs_prefetch_spec(
                s[j].source,
            ) by {
            if run_map(d, cache, results).contains_key(k) {
                let j = choose|j: int|
                    0 <= j < d.len() && (#[trigger] d[j]).package_id == k && needs_prefetch_spec(
                        d[j].source,
                    );
                assert(s[j] == d[j]);
                assert(0 <= j < s.len() && s[j].package_id == k && needs_prefetch_spec(
                    s[j].source,
                ));
            } else {
                assert(s[s.len() - 1].package_id == k && needs_prefetch_spec(
                    s[s.len() - 1].source,
                ));
            }
        }
    }
}

proof fn lemma_run_map_complete(
    s: Seq<DerivationView>,
    cache: Map<Seq<char>, Seq<char>>,
    results: Seq<(Seq<char>, Seq<char>)>,
)
    requires
        covers(s, cache, results),
    ensures
        forall|j: int|
            0 <= j < s.len() && needs_prefetch_spec((#[trigger] s[j]).source) ==> run_map(
                s,
                cache,
                results,
            ).contains_key(s[j].package_id),
    decreases s.len(),
{
    if s.len() > 0 {
        let d = s.drop_last();
        assert forall|i: int| 0 <= i < d.len() && to_fetch(#[trigger] d[i], cache) implies
            lookup_pairs(results, d[i].package_id) is Some by {
            assert(d[i] == s[i]);
        }
        lemma_run_map_complete(d, cache, results);
        assert forall|j: int|
            0 <= j < s.len() && needs_prefetch_spec((#[trigger] s[j]).source) implies run_map(
            s,
            cache,
            results,
        ).contains_key(s[j].package_id) by {
            if j < s.len() - 1 {
                assert(d[j] == s[j]);
                assert(run_map(d, cache, results).contains_key(s[j].package_id));
            } else {
                let c = s.last();
                if !cache.contains_key(c.package_id) {
                    assert(to_fetch(c, cache));
                    assert(lookup_pairs(results, c.package_id) is Some);
                }
                assert(resolved_hash(c, cache, results) is Some);
            }
        }
    }
}

proof fn lemma_plan_empty(s: Seq<DerivationView>, m: Map<Seq<char>, Seq<char>>)
    requires
        forall|j: int|
            0 <= j < s.len() && needs_prefetch_spec((#[trigger] s[j]).source) ==> m.contains_key(
                s[j].package_id,
            ),
    ensures
        plan_views(s, m).len() == 0,
    decreases s.len(),
{
    if s.len() > 0 {
        let d = s.drop_last();
        assert forall|j: int|
            0 <= j < d.len() && needs_prefetch_spec((#[trigger] d[j]).source) implies m.contains_key(
            d[j].package_id,
        ) by {
            assert(d[j] == s[j]);
        }
        lemma_plan_empty(d, m);
        assert(s[s.len() - 1] == s.last());
    }
}

/// Idempotence of a run: the reconciled mapping covers every package the
/// run had to resolve, so a second run over the same packages, loading
/// that mapping as its cache, plans no external fetch at all.
pub proof fn lemma_second_run_fetches_nothing(
    s: Seq<DerivationView>,
    cache: Map<Seq<char>, Seq<char>>,
    results: Seq<(Seq<char>, Seq<char>)>,
)
    requires
        covers(s, cache, results),
    ensures
        plan_views(s, run_map(s, cache, results)).len() == 0,
{
    lemma_run_map_complete(s, cache, results);
    lemma_plan_empty(s, run_map(s, cache, results));
}

/// Cache pruning: every identity in the reconciled mapping belongs to a
/// package of the current run, so entries of a stale cache whose packages
/// left the run never reach the persisted result.
pub proof fn lemma_cache_pruning(
    s: Seq<DerivationView>,
    cache: Map<Seq<char>, Seq<char>>,
    results: Seq<(Seq<char>, Seq<char>)>,
)
    ensures
        forall|k: Seq<char>|
            run_map(s, cache, results).contains_key(k) ==> exists|j: int|
                0 <= j < s.len() && (#[trigger] s[j]).package_id == k,
{
    lemma_run_map_dom(s, cache, results);
    assert forall|k: Seq<char>| run_map(s, cache, results).contains_key(k) implies exists|j: int|
        0 <= j < s.len() && (#[trigger] s[j]).package_id == k by {
        let j = choose|j: int|
            0 <= j < s.len() && (#[trigger] s[j]).package_id == k && needs_prefetch_spec(
                s[j].source,
            );
        assert(0 <= j < s.len() && s[j].package_id == k);
    }
}

proof fn lemma_lookup_some_contains(s: Seq<(Seq<char>, Seq<char>)>, k: Seq<char>)
    ensures
        lookup_pairs(s, k) matches Some(v) ==> s.contains((k, v)),
    decreases s.len(),
{
    if s.len() > 0 {
        if s[0].0 == k {
            assert(s[0] == (k, s[0].1));
        } else {
            let d = s.drop_first();
            lemma_lookup_some_contains(d, k);
            if lookup_pairs(s, k) is Some {
                let v = lookup_pairs(s, k)->0;
                let i = choose|i: int| 0 <= i < d.len() && d[i] == (k, v);
                assert(s[i + 1] == (k, v));
            }
        }
    }
}

proof fn lemma_contains_lookup(s: Seq<(Seq<char>, Seq<char>)>, k: Seq<char>, v: Seq<char>)
    requires
        distinct_firsts(s),
        s.contains((k, v)),
    ensures
        lookup_pairs(s, k) == Some(v),
    decreases s.len(),
{
    let i = choose|i: int| 0 <= i < s.len() && s[i] == (k, v);
    if s[0].0 == k {
        if i == 0 {
            assert(s[0].1 == v);
        } else {
            assert(s[0].0 == s[i].0);
            assert(false);
        }
    } else {
        assert(i > 0);
        let d = s.drop_first();
        assert(d[i - 1] == (k, v));
        assert(d.contains((k, v)));
        assert forall|a: int, b: int| 0 <= a < b < d.len() implies (#[trigger] d[a]).0
            != (#[trigger] d[b]).0 by {
            assert(d[a] == s[a + 1] && d[b] == s[b + 1]);
        }
        lemma_contains_lookup(d, k, v);
    }
}

proof fn lemma_run_map_lookup_eq(
    s: Seq<DerivationView>,
    cache: Map<Seq<char>, Seq<char>>,
    r1: Seq<(Seq<char>, Seq<char>)>,
    r2: Seq<(Seq<char>, Seq<char>)>,
)
    requires
        forall|k: Seq<char>| #[trigger] lookup_pairs(r1, k) == lookup_pairs(r2, k),
    ensures
        run_map(s, cache, r1) == run_map(s, cache, r2),
    decreases s.len(),
{
    if s.len() > 0 {
        lemma_run_map_lookup_eq(s.drop_last(), cache, r1, r2);
        assert(lookup_pairs(r1, s.last().package_id) == lookup_pairs(r2, s.last().package_id));
    }
}

/// Correlation correctness: the reconciled mapping depends on the fetch
/// results only through which hash is paired with which identity, never
/// on the order in which fetches completed — results that are a
/// permutation of one another reconcile to the same mapping.
pub proof fn lemma_reassembly_order_independent(
    s: Seq<DerivationView>,
    cache: Map<Seq<char>, Seq<char>>,
    r1: Seq<(Seq<char>, Seq<char>)>,
    r2: Seq<(Seq<char>, Seq<char>)>,
)
    requires
        r1.to_multiset() == r2.to_multiset(),
        distinct_firsts(r1),
        distinct_firsts(r2),
    ensures
        run_map(s, cache, r1) == run_map(s, cache, r2),
{
    broadcast use vstd::seq_lib::group_to_multiset_ensures;

    assert forall|k: Seq<char>| #[trigger] lookup_pairs(r1, k) == lookup_pairs(r2, k) by {
        if lookup_pairs(r1, k) is Some {
            let v = lookup_pairs(r1, k)->0;
            lemma_lookup_some_contains(r1, k);
            assert(r1.contains((k, v)));
            assert(r1.to_multiset().count((k, v)) > 0);
            assert(r2.contains((k, v)));
            lemma_contains_lookup(r2, k, v);
        } else if lookup_pairs(r2, k) is Some {
            let v = lookup_pairs(r2, k)->0;
            lemma_lookup_some_contains(r2, k);
            assert(r2.contains((k, v)));
            assert(r2.to_multiset().count((k, v)) > 0);
            assert(r1.contains((k, v)));
            lemma_contains_lookup(r1, k, v);
            assert(false);
        }
    }
    lemma_run_map_lookup_eq(s, cache, r1, r2);
}

/// Runs the reassembly step: writes each resolved hash back into the
/// package it belongs to, looked up by package identity, and reconciles
/// the identity-to-hash mapping of the whole run.
pub fn reassemble(
    packages: &mut Vec<CrateDerivation>,
    cache: &CacheMap,
    fetched: &Vec<(PackageId, String)>,
) -> (m: CacheMap)
    requires
        cache.wf(),
        distinct_ids(old(packages).deep_view()),
        covers(old(packages).deep_view(), cache.as_map(), fetched.deep_view()),
    ensures
        m.wf(),
        m.as_map() == run_map(old(packages).deep_view(), cache.as_map(), fetched.deep_view()),
        final(packages)@.len() == old(packages)@.len(),
        forall|i: int|
            0 <= i < old(packages)@.len() ==> {
                let c0 = old(packages).deep_view()[i];
                if needs_prefetch_spec(c0.source) {
                    resolved_hash(c0, cache.as_map(), fetched.deep_view()) matches Some(h)
                        && (#[trigger] final(packages)@[i])@ == (DerivationView {
                        package_id: c0.package_id,
                        source: with_sha256_spec(c0.source, h),
                    })
                } else {
                    final(packages)@[i]@ == c0
                }
            },
{
    let ghost p0 = packages.deep_view();
    let ghost cm = cache.as_map();
    let ghost rv = fetched.deep_view();
    let mut m = CacheMap::new();
    let n = packages.len();
    proof {
        assert forall|j: int| 0 <= j < n implies (#[trigger] packages@[j])@ == p0[j] by {
            assert(p0[j] == packages@[j].deep_view());
        }
    }
    let mut i: usize = 0;
    while i < n
        invariant
            0 <= i <= n,
            n == packages@.len(),
            n == p0.len(),
            cache.wf(),
            cm == cache.as_map(),
            rv == fetched.deep_view(),
            distinct_ids(p0),
            covers(p0, cm, rv),
            m.wf(),
            m.as_map() == run_map(p0.take(i as int), cm, rv),
            forall|j: int| i <= j < n ==> (#[trigger] packages@[j])@ == p0[j],
            forall|j: int|
                0 <= j < i ==> {
                    let c0 = p0[j];
                    if needs_prefetch_spec(c0.source) {
                        resolved_hash(c0, cm, rv) matches Some(h)
                            && (#[trigger] packages@[j])@ == (DerivationView {
                            package_id: c0.package_id,
                            source: with_sha256_spec(c0.source, h),
                        })
                    } else {
                        packages@[j]@ == p0[j]
                    }
                },
        decreases n - i,
    {
        proof {
            assert(packages@[i as int]@ == p0[i as int]);
            assert(p0.take(i as int + 1).drop_last() =~= p0.take(i as int));
            assert(p0.take(i as int + 1).last() == p0[i as int]);
        }
        if packages[i].source.needs_prefetch() {
            let id = packages[i].package_id.dup();
            let hash: String = match cache.get(&id) {
                Some(h) => trim(h.as_str()),
                None => {
                    proof {
                        assert(to_fetch(p0[i as int], cm));
                    }
                    match lookup_fetched(fetched, &id) {
                        Some(h) => h,
                        None => {
                            proof {
                                assert(false);
                            }
                            vstd::pervasive::unreached()
                        },
                    }
                },
            };
            proof {
                assert(resolved_hash(p0[i as int], cm, rv) == Some(hash@));
            }
            let new_source = packages[i].source.with_sha256(hash.clone());
            let ghost before = packages@;
            packages[i].source = new_source;
            proof {
                assert forall|j: int| 0 <= j < n && j != i implies (#[trigger] packages@[j])
                    == before[j] by {}
                assert(packages@[i as int]@ == (DerivationView {
                    package_id: p0[i as int].package_id,
                    source: with_sha256_spec(p0[i as int].source, hash@),
                }));
                lemma_run_map_dom(p0.take(i as int), cm, rv);
                assert forall|j: int| 0 <= j < i implies p0[j].package_id
                    != p0[i as int].package_id by {}
                assert(!m.as_map().contains_key(id@));
            }
            m.insert(id, hash);
        }
        i = i + 1;
    }
    proof {
        assert(p0.take(n as int) =~= p0);
    }
    m
}

} // verus!
