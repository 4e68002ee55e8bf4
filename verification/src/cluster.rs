//! The profile store: the `Cluster` entity, its in-memory collection, and the
//! pure operations over it — lookup by name, upsert, removal and listing —
//! together with the laws that hold of them (uniqueness of names, idempotence
//! of upsert).

use vstd::prelude::*;

use crate::CliError;

verus! {

/// One stored connection profile: a name (the unique key), the login target
/// url, the login identity, and a free-form comment.
#[derive(Debug)]
pub struct Cluster {
    pub name: String,
    pub url: String,
    pub username: String,
    pub comment: String,
}

/// Mathematical model of a profile: each field as its character sequence.
#[verifier::ext_equal]
pub struct ClusterView {
    pub name: Seq<char>,
    pub url: Seq<char>,
    pub username: Seq<char>,
    pub comment: Seq<char>,
}

impl View for Cluster {
    type V = ClusterView;

    open spec fn view(&self) -> ClusterView {
        ClusterView {
            name: self.name@,
            url: self.url@,
            username: self.username@,
            comment: self.comment@,
        }
    }
}

/// The model of a whole profile list.
pub open spec fn clusters_view(cs: Seq<Cluster>) -> Seq<ClusterView> {
    cs.map_values(|c: Cluster| c@)
}

/// The in-memory store: the ordered list of profiles read from the backing
/// file.  Insertion order is preserved by every operation.
#[derive(Debug)]
pub struct CliConfig {
    pub clusters: Vec<Cluster>,
}

impl View for CliConfig {
    type V = Seq<ClusterView>;

    open spec fn view(&self) -> Seq<ClusterView> {
        clusters_view(self.clusters@)
    }
}

/// Index of the first profile named `name`, if any.
pub open spec fn spec_find(cs: Seq<ClusterView>, name: Seq<char>) -> Option<int>
    decreases cs.len(),
{
    if cs.len() == 0 {
        None
    } else if cs[0].name == name {
        Some(0)
    } else {
        match spec_find(cs.drop_first(), name) {
            None => None,
            Some(i) => Some(i + 1),
        }
    }
}

/// `spec_find` returns the first index whose profile carries `name`, and
/// `None` exactly when no profile does.
pub proof fn lemma_spec_find(cs: Seq<ClusterView>, name: Seq<char>)
    ensures
        match spec_find(cs, name) {
            Some(i) => {
                &&& 0 <= i < cs.len()
                &&& cs[i].name == name
                &&& forall|k: int| 0 <= k < i ==> cs[k].name != name
            },
            None => forall|k: int| 0 <= k < cs.len() ==> cs[k].name != name,
        },
    decreases cs.len(),
{
    if cs.len() == 0 {
    } else if cs[0].name == name {
    } else {
        let tail = cs.drop_first();
        lemma_spec_find(tail, name);
        assert(forall|k: int| 0 <= k < tail.len() ==> tail[k] == cs[k + 1]);
        match spec_find(tail, name) {
            None => {
                assert forall|k: int| 0 <= k < cs.len() implies cs[k].name != name by {
                    if k > 0 {
                        assert(tail[k - 1] == cs[k]);
                    }
                }
            },
            Some(j) => {
                assert(cs[j + 1].name == name);
                assert forall|k: int| 0 <= k < j + 1 implies cs[k].name != name by {
                    if k > 0 {
                        assert(tail[k - 1] == cs[k]);
                    }
                }
            },
        }
    }
}

/// A name that occurs first at index `i` is exactly where `spec_find` points.
pub proof fn lemma_spec_find_at(cs: Seq<ClusterView>, name: Seq<char>, i: int)
    requires
        0 <= i < cs.len(),
        cs[i].name == name,
        forall|k: int| 0 <= k < i ==> cs[k].name != name,
    ensures
        spec_find(cs, name) == Some(i),
{
    lemma_spec_find(cs, name);
    match spec_find(cs, name) {
        None => {
            assert(cs[i].name != name);
        },
        Some(j) => {
            if j < i {
                assert(cs[j].name != name);
            } else if j > i {
                assert(cs[i].name != name);
            }
        },
    }
}

/// No two profiles of the store share a name.
pub open spec fn unique_names(cs: Seq<ClusterView>) -> bool {
    forall|i: int, j: int| 0 <= i < j < cs.len() ==> cs[i].name != cs[j].name
}

/// How many profiles carry `name`.
pub open spec fn count_name(cs: Seq<ClusterView>, name: Seq<char>) -> nat
    decreases cs.len(),
{
    if cs.len() == 0 {
        0
    } else {
        (if cs[0].name == name {
            1nat
        } else {
            0nat
        }) + count_name(cs.drop_first(), name)
    }
}

/// The store after add-or-update: if a profile named `name` exists, its `url`
/// and `username` are overwritten in place (name and comment preserved);
/// otherwise a new profile with an empty comment is appended.
pub open spec fn spec_upsert(
    cs: Seq<ClusterView>,
    name: Seq<char>,
    url: Seq<char>,
    username: Seq<char>,
) -> Seq<ClusterView> {
    match spec_find(cs, name) {
        Some(i) => cs.update(
            i,
            ClusterView { name: cs[i].name, url: url, username: username, comment: cs[i].comment },
        ),
        None => cs.push(ClusterView { name: name, url: url, username: username, comment: Seq::empty() }),
    }
}

/// The store after removal: the first profile named `name` is taken out;
/// a missing name leaves the store as it was.
pub open spec fn spec_remove(cs: Seq<ClusterView>, name: Seq<char>) -> Seq<ClusterView> {
    match spec_find(cs, name) {
        Some(i) => cs.remove(i),
        None => cs,
    }
}

/// Exact-match lookup by `name`: returns the first profile with that name.
pub fn find_cluster<'a>(name: &str, clusters: &'a Vec<Cluster>) -> (r: Option<&'a Cluster>)
    ensures
        match spec_find(clusters_view(clusters@), name@) {
            Some(i) => r matches Some(c) && c@ == clusters_view(clusters@)[i],
            None => r is None,
        },
{
    let ghost cv = clusters_view(clusters@);
    proof {
        lemma_spec_find(cv, name@);
    }
    let target: String = name.to_owned();
    let n = clusters.len();
    let mut i: usize = 0;
    while i < n
        invariant
            n == clusters.len(),
            i <= n,
            target@ == name@,
            cv == clusters_view(clusters@),
            forall|k: int| 0 <= k < i ==> cv[k].name != name@,
        decreases n - i,
    {
        if clusters[i].name == target {
            proof {
                lemma_spec_find(cv, name@);
                assert(cv[i as int].name == name@);
            }
            return Some(&clusters[i]);
        }
        i += 1;
    }
    proof {
        lemma_spec_find(cv, name@);
    }
    None
}

/// Adds or updates a profile in the store:
///  - if no profile carries `name`, a new one (with an empty comment) is appended;
///  - if one already exists, its `url` and `username` are overwritten in place,
///    name and comment preserved.
pub fn add_cluster(name: String, url: String, username: String, cli_config: &mut CliConfig)
    ensures
        final(cli_config)@ == spec_upsert(old(cli_config)@, name@, url@, username@),
{
    let ghost cv = old(cli_config)@;
    proof {
        lemma_spec_find(cv, name@);
    }
    let n = cli_config.clusters.len();
    let mut i: usize = 0;
    while i < n
        invariant
            *cli_config == *old(cli_config),
            n == cli_config.clusters.len(),
            i <= n,
            cv == cli_config@,
            forall|k: int| 0 <= k < i ==> cv[k].name != name@,
        decreases n - i,
    {
        if cli_config.clusters[i].name == name {
            proof {
                lemma_spec_find_at(cv, name@, i as int);
            }
            let kept_name = cli_config.clusters[i].name.clone();
            let kept_comment = cli_config.clusters[i].comment.clone();
            let updated = Cluster { name: kept_name, url: url, username: username, comment: kept_comment };
            cli_config.clusters[i] = updated;
            proof {
                assert(cli_config@ =~= spec_upsert(cv, name@, url@, username@));
            }
            return ;
        }
        i += 1;
    }
    proof {
        lemma_spec_find(cv, name@);
        assert(spec_find(cv, name@) is None);
    }
    let fresh = Cluster { name: name, url: url, username: username, comment: String::new() };
    cli_config.clusters.push(fresh);
    proof {
        assert(cli_config@ =~= spec_upsert(cv, name@, url@, username@));
    }
}

/// Removes the profile named `cluster_name` if it exists and reports whether
/// it did; a missing name leaves the store untouched and reports `false`.
pub fn delete_cluster(cluster_name: String, cli_config: &mut CliConfig) -> (removed: bool)
    ensures
        final(cli_config)@ == spec_remove(old(cli_config)@, cluster_name@),
        removed == (spec_find(old(cli_config)@, cluster_name@) is Some),
        spec_find(old(cli_config)@, cluster_name@) is None ==> *final(cli_config) == *old(cli_config),
{
    let ghost cv = old(cli_config)@;
    proof {
        lemma_spec_find(cv, cluster_name@);
    }
    let n = cli_config.clusters.len();
    let mut i: usize = 0;
    while i < n
        invariant
            *cli_config == *old(cli_config),
            n == cli_config.clusters.len(),
            i <= n,
            cv == cli_config@,
            forall|k: int| 0 <= k < i ==> cv[k].name != cluster_name@,
        decreases n - i,
    {
        if cli_config.clusters[i].name == cluster_name {
            proof {
                lemma_spec_find_at(cv, cluster_name@, i as int);
            }
            cli_config.clusters.remove(i);
            proof {
                assert(cli_config@ =~= spec_remove(cv, cluster_name@));
            }
            return true;
        }
        i += 1;
    }
    proof {
        lemma_spec_find(cv, cluster_name@);
        assert(spec_find(cv, cluster_name@) is None);
    }
    false
}

/// The view of a sequence of owned strings.
pub open spec fn strings_view(ss: Seq<String>) -> Seq<Seq<char>> {
    ss.map_values(|s: String| s@)
}

/// The view of a table: each row a sequence of cell texts.
pub open spec fn rows_view(rs: Seq<Vec<String>>) -> Seq<Seq<Seq<char>>> {
    rs.map_values(|r: Vec<String>| strings_view(r@))
}

/// One listing row for a profile: the default format shows name, username and
/// url; the wide format adds the comment.
pub open spec fn spec_row(c: ClusterView, wide: bool) -> Seq<Seq<char>> {
    if wide {
        seq![c.name, c.username, c.url, c.comment]
    } else {
        seq![c.name, c.username, c.url]
    }
}

/// The header row of a listing.
pub open spec fn spec_header_row(wide: bool) -> Seq<Seq<char>> {
    if wide {
        seq!["CLUSTER NAME"@, "USERNAME"@, "URL"@, "COMMENT"@]
    } else {
        seq!["CLUSTER NAME"@, "USERNAME"@, "URL"@]
    }
}

/// A whole listing: the header row followed by one row per profile, in store
/// order.
pub open spec fn spec_table_rows(cs: Seq<ClusterView>, wide: bool) -> Seq<Seq<Seq<char>>> {
    seq![spec_header_row(wide)] + cs.map_values(|c: ClusterView| spec_row(c, wide))
}

/// Returns the listing rows for all profiles, for an external renderer.  The
/// only recognized format beyond the default is `wide`; any other format is a
/// usage error and nothing is listed.
pub fn list_clusters(format: Option<String>, cli_config: &CliConfig) -> (r: Result<
    Vec<Vec<String>>,
    CliError,
>)
    ensures
        match format {
            Some(f) => if f@ == "wide"@ {
                r matches Ok(rows) && rows_view(rows@) == spec_table_rows(cli_config@, true)
            } else {
                r matches Err(e) && e == CliError::Usage
            },
            None => r matches Ok(rows) && rows_view(rows@) == spec_table_rows(cli_config@, false),
        },
{
    let wide: bool;
    match &format {
        Some(f) => {
            let wide_word: String = "wide".to_owned();
            if *f == wide_word {
                wide = true;
            } else {
                return Err(CliError::Usage);
            }
        },
        None => {
            wide = false;
        },
    }
    let mut rows: Vec<Vec<String>> = Vec::new();
    let mut header: Vec<String> = Vec::new();
    header.push("CLUSTER NAME".to_owned());
    header.push("USERNAME".to_owned());
    header.push("URL".to_owned());
    if wide {
        header.push("COMMENT".to_owned());
    }
    proof {
        assert(strings_view(header@) =~= spec_header_row(wide));
    }
    rows.push(header);
    let n = cli_config.clusters.len();
    let mut i: usize = 0;
    while i < n
        invariant
            n == cli_config.clusters.len(),
            i <= n,
            rows@.len() == i + 1,
            strings_view(rows@[0]@) == spec_header_row(wide),
            forall|k: int| 0 <= k < i ==> strings_view(rows@[k + 1]@) == spec_row(
                cli_config@[k],
                wide,
            ),
        decreases n - i,
    {
        let c = &cli_config.clusters[i];
        let mut row: Vec<String> = Vec::new();
        row.push(c.name.clone());
        row.push(c.username.clone());
        row.push(c.url.clone());
        if wide {
            row.push(c.comment.clone());
        }
        proof {
            assert(strings_view(row@) =~= spec_row(cli_config@[i as int], wide));
        }
        rows.push(row);
        i += 1;
    }
    proof {
        let target = spec_table_rows(cli_config@, wide);
        let body = cli_config@.map_values(|c: ClusterView| spec_row(c, wide));
        assert(rows_view(rows@).len() == target.len());
        assert forall|k: int| 0 <= k < target.len() implies rows_view(rows@)[k] == target[k] by {
            assert(rows_view(rows@)[k] == strings_view(rows@[k]@));
            if k == 0 {
                assert(target[0] == spec_header_row(wide));
            } else {
                assert(target[k] == body[k - 1]);
                assert(body[k - 1] == spec_row(cli_config@[k - 1], wide));
            }
        }
        assert(rows_view(rows@) =~= target);
    }
    Ok(rows)
}

/// The argument vector of the external login invocation for a profile:
/// `oc login <url> -u <username>`.
pub open spec fn spec_login_argv(c: ClusterView) -> Seq<Seq<char>> {
    seq!["oc"@, "login"@, c.url, "-u"@, c.username]
}

/// Builds the external login invocation for an already-resolved profile.
pub fn login_command(c: &Cluster) -> (r: Vec<String>)
    ensures
        strings_view(r@) == spec_login_argv(c@),
{
    let mut argv: Vec<String> = Vec::new();
    argv.push("oc".to_owned());
    argv.push("login".to_owned());
    argv.push(c.url.clone());
    argv.push("-u".to_owned());
    argv.push(c.username.clone());
    proof {
        assert(strings_view(argv@) =~= spec_login_argv(c@));
    }
    argv
}

/// Resolves `cluster_name` in the store and yields the login invocation for
/// it; a missing name is reported as not found, with the store untouched.
pub fn connect_to_cluster(cluster_name: String, cli_config: &CliConfig) -> (r: Result<
    Vec<String>,
    CliError,
>)
    ensures
        match spec_find(cli_config@, cluster_name@) {
            Some(i) => r matches Ok(argv) && strings_view(argv@) == spec_login_argv(cli_config@[i]),
            None => r matches Err(e) && e == CliError::NotFound,
        },
{
    match find_cluster(cluster_name.as_str(), &cli_config.clusters) {
        Some(c) => Ok(login_command(c)),
        None => Err(CliError::NotFound),
    }
}

/// A name that no profile carries is counted zero times.
proof fn lemma_count_zero(cs: Seq<ClusterView>, name: Seq<char>)
    requires
        forall|k: int| 0 <= k < cs.len() ==> cs[k].name != name,
    ensures
        count_name(cs, name) == 0,
    decreases cs.len(),
{
    if cs.len() > 0 {
        let tail = cs.drop_first();
        assert forall|k: int| 0 <= k < tail.len() implies tail[k].name != name by {
            assert(tail[k] == cs[k + 1]);
        }
        lemma_count_zero(tail, name);
    }
}

/// In a store with unique names, a name that occurs at some index is counted
/// exactly once.
proof fn lemma_count_one(cs: Seq<ClusterView>, name: Seq<char>, i: int)
    requires
        unique_names(cs),
        0 <= i < cs.len(),
        cs[i].name == name,
    ensures
        count_name(cs, name) == 1,
    decreases cs.len(),
{
    let tail = cs.drop_first();
    assert(forall|k: int| 0 <= k < tail.len() ==> tail[k] == cs[k + 1]);
    if i == 0 {
        assert forall|k: int| 0 <= k < tail.len() implies tail[k].name != name by {
            assert(cs[0].name != cs[k + 1].name);
        }
        lemma_count_zero(tail, name);
    } else {
        assert(cs[0].name != cs[i].name);
        assert forall|p: int, q: int| 0 <= p < q < tail.len() implies tail[p].name != tail[q].name by {
            assert(cs[p + 1].name != cs[q + 1].name);
        }
        lemma_count_one(tail, name, i - 1);
    }
}

/// Law: upsert is idempotent — a second upsert with identical arguments
/// leaves the store exactly as the first left it.
pub proof fn lemma_upsert_idempotent(
    cs: Seq<ClusterView>,
    name: Seq<char>,
    url: Seq<char>,
    username: Seq<char>,
)
    ensures
        spec_upsert(spec_upsert(cs, name, url, username), name, url, username) == spec_upsert(
            cs,
            name,
            url,
            username,
        ),
{
    lemma_spec_find(cs, name);
    let s1 = spec_upsert(cs, name, url, username);
    match spec_find(cs, name) {
        Some(i) => {
            let c1 = ClusterView { name: cs[i].name, url: url, username: username, comment: cs[i].comment };
            assert(s1 == cs.update(i, c1));
            assert forall|k: int| 0 <= k < i implies s1[k].name != name by {
                assert(s1[k] == cs[k]);
            }
            lemma_spec_find_at(s1, name, i);
            assert(s1.update(i, ClusterView { name: s1[i].name, url: url, username: username, comment: s1[i].comment }) =~= s1);
        },
        None => {
            let c1 = ClusterView { name: name, url: url, username: username, comment: Seq::empty() };
            let end = cs.len() as int;
            assert(s1 == cs.push(c1));
            assert(s1[end] == c1);
            assert forall|k: int| 0 <= k < end implies s1[k].name != name by {
                assert(s1[k] == cs[k]);
            }
            lemma_spec_find_at(s1, name, end);
            assert(s1.update(end, ClusterView { name: s1[end].name, url: url, username: username, comment: s1[end].comment }) =~= s1);
        },
    }
}

/// Law: upsert preserves uniqueness of names — for every sequence of
/// add-or-update operations starting from a store with unique names (the
/// empty store among them), the store never holds two profiles of one name.
pub proof fn lemma_upsert_preserves_unique(
    cs: Seq<ClusterView>,
    name: Seq<char>,
    url: Seq<char>,
    username: Seq<char>,
)
    requires
        unique_names(cs),
    ensures
        unique_names(spec_upsert(cs, name, url, username)),
{
    lemma_spec_find(cs, name);
    let s1 = spec_upsert(cs, name, url, username);
    match spec_find(cs, name) {
        Some(i) => {
            assert forall|p: int, q: int| 0 <= p < q < s1.len() implies s1[p].name != s1[q].name by {
                assert(s1[p].name == cs[p].name);
                assert(s1[q].name == cs[q].name);
                assert(cs[p].name != cs[q].name);
            }
        },
        None => {
            let end = cs.len() as int;
            assert forall|p: int, q: int| 0 <= p < q < s1.len() implies s1[p].name != s1[q].name by {
                assert(s1[p] == cs[p]);
                if q < end {
                    assert(s1[q] == cs[q]);
                    assert(cs[p].name != cs[q].name);
                } else {
                    assert(s1[q].name == name);
                    assert(cs[p].name != name);
                }
            }
        },
    }
}

/// After an upsert, a profile with the upserted name is present and carries
/// the new url and username.
pub proof fn lemma_upsert_finds(
    cs: Seq<ClusterView>,
    name: Seq<char>,
    url: Seq<char>,
    username: Seq<char>,
)
    ensures
        ({
            let s1 = spec_upsert(cs, name, url, username);
            match spec_find(s1, name) {
                Some(i) => {
                    &&& 0 <= i < s1.len()
                    &&& s1[i].name == name
                    &&& s1[i].url == url
                    &&& s1[i].username == username
                },
                None => false,
            }
        }),
{
    lemma_spec_find(cs, name);
    let s1 = spec_upsert(cs, name, url, username);
    match spec_find(cs, name) {
        Some(i) => {
            assert forall|k: int| 0 <= k < i implies s1[k].name != name by {
                assert(s1[k] == cs[k]);
            }
            lemma_spec_find_at(s1, name, i);
        },
        None => {
            let end = cs.len() as int;
            assert forall|k: int| 0 <= k < end implies s1[k].name != name by {
                assert(s1[k] == cs[k]);
            }
            lemma_spec_find_at(s1, name, end);
        },
    }
}

/// Law: after an upsert on a store with unique names, exactly one profile
/// carries the upserted name.
pub proof fn lemma_upsert_count(
    cs: Seq<ClusterView>,
    name: Seq<char>,
    url: Seq<char>,
    username: Seq<char>,
)
    requires
        unique_names(cs),
    ensures
        count_name(spec_upsert(cs, name, url, username), name) == 1,
{
    lemma_spec_find(cs, name);
    lemma_upsert_preserves_unique(cs, name, url, username);
    let s1 = spec_upsert(cs, name, url, username);
    match spec_find(cs, name) {
        Some(i) => {
            assert(s1[i].name == name);
            lemma_count_one(s1, name, i);
        },
        None => {
            let end = cs.len() as int;
            assert(s1[end].name == name);
            lemma_count_one(s1, name, end);
        },
    }
}

/// Law: removal preserves uniqueness of names.
pub proof fn lemma_remove_preserves_unique(cs: Seq<ClusterView>, name: Seq<char>)
    requires
        unique_names(cs),
    ensures
        unique_names(spec_remove(cs, name)),
{
    lemma_spec_find(cs, name);
    match spec_find(cs, name) {
        Some(i) => {
            let r = cs.remove(i);
            assert forall|p: int, q: int| 0 <= p < q < r.len() implies r[p].name != r[q].name by {
                let p0 = if p < i { p } else { p + 1 };
                let q0 = if q < i { q } else { q + 1 };
                assert(r[p] == cs[p0]);
                assert(r[q] == cs[q0]);
                assert(cs[p0].name != cs[q0].name);
            }
        },
        None => {},
    }
}

/// An empty store: what a fresh backing file holds.
pub fn default_config() -> (r: CliConfig)
    ensures
        r@ == Seq::<ClusterView>::empty(),
{
    let r = CliConfig { clusters: Vec::new() };
    proof {
        assert(r@ =~= Seq::<ClusterView>::empty());
    }
    r
}

} // verus!
