//! The on-disk form of the profile store and its decoder.
//!
//! A store is written as a `clusters:` header line followed, per profile, by
//! four lines carrying the name, url, username and comment, each behind a
//! fixed prefix.  The decoder accepts exactly the texts the encoder produces:
//! anything else is a parse failure, never silently read as an empty store.
//! The central law, [`lemma_round_trip`], states that decoding an encoded
//! store yields the store back.

use vstd::prelude::*;

use crate::CliError;
use crate::cluster::{CliConfig, Cluster, ClusterView, clusters_view};

verus! {

/// The header line that opens the file.
pub open spec fn header() -> Seq<char> {
    "clusters:\n"@
}

/// The prefix of a profile's first line, carrying its name.
pub open spec fn name_prefix() -> Seq<char> {
    "- name: "@
}

/// The prefix of the line carrying the url.
pub open spec fn url_prefix() -> Seq<char> {
    "  url: "@
}

/// The prefix of the line carrying the username.
pub open spec fn username_prefix() -> Seq<char> {
    "  username: "@
}

/// The prefix of the line carrying the comment.
pub open spec fn comment_prefix() -> Seq<char> {
    "  comment: "@
}

/// A single line break.
pub open spec fn nl() -> Seq<char> {
    seq!['\n']
}

/// A profile can be written to one set of lines iff none of its fields
/// contains a line break.
pub open spec fn cluster_wf(c: ClusterView) -> bool {
    &&& !c.name.contains('\n')
    &&& !c.url.contains('\n')
    &&& !c.username.contains('\n')
    &&& !c.comment.contains('\n')
}

/// Every profile of the store is well formed.
pub open spec fn config_wf(cs: Seq<ClusterView>) -> bool {
    forall|i: int| 0 <= i < cs.len() ==> cluster_wf(#[trigger] cs[i])
}

/// The four lines a single profile is written as.
pub open spec fn encode_cluster(c: ClusterView) -> Seq<char> {
    name_prefix() + c.name + nl() + url_prefix() + c.url + nl() + username_prefix() + c.username
        + nl() + comment_prefix() + c.comment + nl()
}

/// The profile lines of a whole store, in order.
pub open spec fn encode_clusters(cs: Seq<ClusterView>) -> Seq<char>
    decreases cs.len(),
{
    if cs.len() == 0 {
        Seq::empty()
    } else {
        encode_cluster(cs[0]) + encode_clusters(cs.drop_first())
    }
}

/// The full text of the backing file for a store.
pub open spec fn spec_encode(cs: Seq<ClusterView>) -> Seq<char> {
    header() + encode_clusters(cs)
}

/// Index of the first line break, if any.
pub open spec fn find_nl(s: Seq<char>) -> Option<int>
    decreases s.len(),
{
    if s.len() == 0 {
        None
    } else if s[0] == '\n' {
        Some(0)
    } else {
        match find_nl(s.drop_first()) {
            None => None,
            Some(i) => Some(i + 1),
        }
    }
}

/// `find_nl` points at the first line break, and is `None` exactly when the
/// text holds none.
pub proof fn lemma_find_nl(s: Seq<char>)
    ensures
        match find_nl(s) {
            Some(i) => {
                &&& 0 <= i < s.len()
                &&& s[i] == '\n'
                &&& forall|k: int| 0 <= k < i ==> s[k] != '\n'
            },
            None => forall|k: int| 0 <= k < s.len() ==> s[k] != '\n',
        },
    decreases s.len(),
{
    if s.len() == 0 {
    } else if s[0] == '\n' {
    } else {
        let tail = s.drop_first();
        lemma_find_nl(tail);
        assert(forall|k: int| 0 <= k < tail.len() ==> tail[k] == s[k + 1]);
        match find_nl(tail) {
            None => {
                assert forall|k: int| 0 <= k < s.len() implies s[k] != '\n' by {
                    if k > 0 {
                        assert(tail[k - 1] == s[k]);
                    }
                }
            },
            Some(j) => {
                assert(s[j + 1] == '\n');
                assert forall|k: int| 0 <= k < j + 1 implies s[k] != '\n' by {
                    if k > 0 {
                        assert(tail[k - 1] == s[k]);
                    }
                }
            },
        }
    }
}

/// A line break that occurs first at index `i` is exactly where `find_nl`
/// points.
pub proof fn lemma_find_nl_at(s: Seq<char>, i: int)
    requires
        0 <= i < s.len(),
        s[i] == '\n',
        forall|k: int| 0 <= k < i ==> s[k] != '\n',
    ensures
        find_nl(s) == Some(i),
{
    lemma_find_nl(s);
    match find_nl(s) {
        None => {
            assert(s[i] != '\n');
        },
        Some(j) => {
            if j < i {
                assert(s[j] != '\n');
            } else if j > i {
                assert(s[i] != '\n');
            }
        },
    }
}

/// One field line: the given prefix, the field's text up to the next line
/// break, and what follows that break.
pub open spec fn parse_field(prefix: Seq<char>, s: Seq<char>) -> Option<(Seq<char>, Seq<char>)> {
    if prefix.is_prefix_of(s) {
        let rest = s.skip(prefix.len() as int);
        match find_nl(rest) {
            None => None,
            Some(i) => Some((rest.take(i), rest.skip(i + 1))),
        }
    } else {
        None
    }
}

/// One profile: its four field lines in order.
pub open spec fn parse_cluster(s: Seq<char>) -> Option<(ClusterView, Seq<char>)> {
    match parse_field(name_prefix(), s) {
        None => None,
        Some(f1) => match parse_field(url_prefix(), f1.1) {
            None => None,
            Some(f2) => match parse_field(username_prefix(), f2.1) {
                None => None,
                Some(f3) => match parse_field(comment_prefix(), f3.1) {
                    None => None,
                    Some(f4) => Some(
                        (
                            ClusterView { name: f1.0, url: f2.0, username: f3.0, comment: f4.0 },
                            f4.1,
                        ),
                    ),
                },
            },
        },
    }
}

/// All profile lines of the file: profiles until the text is exhausted.
pub open spec fn parse_clusters(s: Seq<char>) -> Option<Seq<ClusterView>>
    decreases s.len(),
{
    if s.len() == 0 {
        Some(Seq::empty())
    } else {
        match parse_cluster(s) {
            None => None,
            Some(p) => if p.1.len() < s.len() {
                match parse_clusters(p.1) {
                    None => None,
                    Some(cs) => Some(seq![p.0] + cs),
                }
            } else {
                None
            },
        }
    }
}

/// The whole file: the header line, then the profiles.
pub open spec fn spec_parse(s: Seq<char>) -> Option<Seq<ClusterView>> {
    if header().is_prefix_of(s) {
        parse_clusters(s.skip(header().len() as int))
    } else {
        None
    }
}

/// Decoding a field line that the encoder wrote yields the field and the
/// following text back.
proof fn lemma_parse_field_encode(prefix: Seq<char>, v: Seq<char>, rest: Seq<char>)
    requires
        !v.contains('\n'),
    ensures
        parse_field(prefix, prefix + v + nl() + rest) == Some((v, rest)),
{
    let s = prefix + v + nl() + rest;
    let plen = prefix.len() as int;
    assert(prefix =~= s.subrange(0, plen));
    assert(prefix.is_prefix_of(s));
    let r = s.skip(plen);
    assert(r =~= v + nl() + rest);
    let vi = v.len() as int;
    assert(r[vi] == '\n');
    assert forall|k: int| 0 <= k < vi implies r[k] != '\n' by {
        assert(r[k] == v[k]);
    }
    lemma_find_nl_at(r, vi);
    assert(r.take(vi) =~= v);
    assert(r.skip(vi + 1) =~= rest);
}

/// Decoding the lines the encoder wrote for one profile yields the profile
/// and the following text back.
proof fn lemma_parse_cluster_encode(c: ClusterView, rest: Seq<char>)
    requires
        cluster_wf(c),
    ensures
        parse_cluster(encode_cluster(c) + rest) == Some((c, rest)),
{
    let s3 = comment_prefix() + c.comment + nl() + rest;
    let s2 = username_prefix() + c.username + nl() + s3;
    let s1 = url_prefix() + c.url + nl() + s2;
    let s0 = name_prefix() + c.name + nl() + s1;
    assert(encode_cluster(c) + rest =~= s0);
    lemma_parse_field_encode(name_prefix(), c.name, s1);
    lemma_parse_field_encode(url_prefix(), c.url, s2);
    lemma_parse_field_encode(username_prefix(), c.username, s3);
    lemma_parse_field_encode(comment_prefix(), c.comment, rest);
    assert(ClusterView { name: c.name, url: c.url, username: c.username, comment: c.comment } =~= c);
}

/// Decoding the profile lines the encoder wrote for a well-formed store
/// yields the store back.
proof fn lemma_parse_clusters_encode(cs: Seq<ClusterView>)
    requires
        config_wf(cs),
    ensures
        parse_clusters(encode_clusters(cs)) == Some(cs),
    decreases cs.len(),
{
    if cs.len() == 0 {
        assert(cs =~= Seq::<ClusterView>::empty());
    } else {
        let c0 = cs[0];
        let tail = cs.drop_first();
        let e_tail = encode_clusters(tail);
        let e = encode_clusters(cs);
        assert(e == encode_cluster(c0) + e_tail);
        assert(cluster_wf(c0));
        lemma_parse_cluster_encode(c0, e_tail);
        assert(nl().len() == 1);
        assert(encode_cluster(c0).len() >= 4);
        assert(e_tail.len() < e.len());
        assert forall|k: int| 0 <= k < tail.len() implies cluster_wf(#[trigger] tail[k]) by {
            assert(tail[k] == cs[k + 1]);
        }
        lemma_parse_clusters_encode(tail);
        assert(parse_clusters(e) == Some(seq![c0] + tail));
        assert(seq![c0] + tail =~= cs);
    }
}

/// Appending one profile appends its lines.
proof fn lemma_encode_clusters_push(s: Seq<ClusterView>, c: ClusterView)
    ensures
        encode_clusters(s.push(c)) == encode_clusters(s) + encode_cluster(c),
    decreases s.len(),
{
    let p = s.push(c);
    if s.len() == 0 {
        assert(p[0] == c);
        assert(p.drop_first() =~= Seq::<ClusterView>::empty());
        assert(encode_clusters(p.drop_first()) == Seq::<char>::empty());
        assert(encode_clusters(s) == Seq::<char>::empty());
        assert(encode_clusters(p) == encode_cluster(c) + Seq::<char>::empty());
        assert(encode_cluster(c) + Seq::<char>::empty() =~= Seq::<char>::empty() + encode_cluster(
            c,
        ));
    } else {
        assert(p[0] == s[0]);
        assert(p.drop_first() =~= s.drop_first().push(c));
        lemma_encode_clusters_push(s.drop_first(), c);
        assert(encode_cluster(s[0]) + (encode_clusters(s.drop_first()) + encode_cluster(c)) =~= (
        encode_cluster(s[0]) + encode_clusters(s.drop_first())) + encode_cluster(c));
    }
}

/// Appends one field line: the prefix, the field's text, a line break.
fn append_field(out: &mut String, prefix: &str, v: &str)
    ensures
        final(out)@ == old(out)@ + prefix@ + v@ + nl(),
{
    out.append(prefix);
    out.append(v);
    out.append("\n");
    proof {
        reveal_strlit("\n");
        assert("\n"@ =~= nl());
    }
}

/// Serializes the whole store into the text of the backing file; every save
/// rewrites the file from this text in full.
#[verifier::rlimit(50)]
pub fn encode_config(cli_config: &CliConfig) -> (r: String)
    ensures
        r@ == spec_encode(cli_config@),
{
    let mut out: String = "clusters:\n".to_owned();
    let n = cli_config.clusters.len();
    let mut i: usize = 0;
    while i < n
        invariant
            n == cli_config.clusters.len(),
            i <= n,
            out@ == header() + encode_clusters(cli_config@.take(i as int)),
        decreases n - i,
    {
        let ghost cv = cli_config@;
        let c = &cli_config.clusters[i];
        append_field(&mut out, "- name: ", c.name.as_str());
        append_field(&mut out, "  url: ", c.url.as_str());
        append_field(&mut out, "  username: ", c.username.as_str());
        append_field(&mut out, "  comment: ", c.comment.as_str());
        proof {
            assert(cv.take(i + 1) =~= cv.take(i as int).push(cv[i as int]));
            lemma_encode_clusters_push(cv.take(i as int), cv[i as int]);
            assert(out@ =~= header() + encode_clusters(cv.take(i + 1)));
        }
        i += 1;
    }
    proof {
        assert(cli_config@.take(n as int) =~= cli_config@);
    }
    out
}

/// Does `pat` stand in `s` at position `pos`?
fn match_at(s: &str, pos: usize, pat: &str) -> (b: bool)
    requires
        pos <= s@.len(),
    ensures
        b == pat@.is_prefix_of(s@.skip(pos as int)),
{
    let n = s.unicode_len();
    let m = pat.unicode_len();
    if m > n - pos {
        return false;
    }
    let mut j: usize = 0;
    while j < m
        invariant
            m == pat@.len(),
            n == s@.len(),
            pos + m <= n,
            j <= m,
            forall|k: int| 0 <= k < j ==> s@[pos + k] == pat@[k],
        decreases m - j,
    {
        if s.get_char(pos + j) != pat.get_char(j) {
            proof {
                let suf = s@.skip(pos as int);
                if pat@.is_prefix_of(suf) {
                    assert(pat@ == suf.subrange(0, m as int));
                    assert(pat@[j as int] == suf.subrange(0, m as int)[j as int]);
                    assert(suf[j as int] == s@[pos + j]);
                }
            }
            return false;
        }
        j += 1;
    }
    proof {
        let suf = s@.skip(pos as int);
        assert forall|k: int| 0 <= k < m implies suf.subrange(0, m as int)[k] == pat@[k] by {
            assert(suf[k] == s@[pos + k]);
        }
        assert(pat@ =~= suf.subrange(0, m as int));
    }
    true
}

/// First line break at or after `pos`.
fn find_newline(s: &str, pos: usize) -> (r: Option<usize>)
    requires
        pos <= s@.len(),
    ensures
        match r {
            Some(j) => pos <= j < s@.len() && find_nl(s@.skip(pos as int)) == Some(j - pos),
            None => find_nl(s@.skip(pos as int)) is None,
        },
{
    let n = s.unicode_len();
    let mut j: usize = pos;
    while j < n
        invariant
            pos <= j <= n,
            n == s@.len(),
            forall|k: int| pos <= k < j ==> s@[k] != '\n',
        decreases n - j,
    {
        if s.get_char(j) == '\n' {
            proof {
                let suf = s@.skip(pos as int);
                assert(suf[j - pos] == s@[j as int]);
                assert forall|k: int| 0 <= k < j - pos implies suf[k] != '\n' by {
                    assert(suf[k] == s@[pos + k]);
                }
                lemma_find_nl_at(suf, j - pos);
            }
            return Some(j);
        }
        j += 1;
    }
    proof {
        let suf = s@.skip(pos as int);
        lemma_find_nl(suf);
        match find_nl(suf) {
            Some(i) => {
                assert(suf[i] == s@[pos + i]);
            },
            None => {},
        }
    }
    None
}

/// One field line at `pos`: checks the prefix, takes the text up to the next
/// line break, and reports the position after that break.
fn parse_field_at(s: &str, pos: usize, pat: &str) -> (r: Option<(String, usize)>)
    requires
        pos <= s@.len(),
    ensures
        match r {
            Some(f) => {
                &&& parse_field(pat@, s@.skip(pos as int)) == Some((f.0@, s@.skip(f.1 as int)))
                &&& pos < f.1 <= s@.len()
            },
            None => parse_field(pat@, s@.skip(pos as int)) is None,
        },
{
    if !match_at(s, pos, pat) {
        return None;
    }
    let n = s.unicode_len();
    let m = pat.unicode_len();
    proof {
        assert(s@.skip(pos as int).len() == s@.len() - pos);
        assert(pat@.len() <= s@.skip(pos as int).len());
    }
    let start = pos + m;
    proof {
        assert(s@.skip(pos as int).skip(m as int) =~= s@.skip(start as int));
    }
    match find_newline(s, start) {
        None => None,
        Some(j) => {
            let v = s.substring_char(start, j).to_owned();
            let newpos = j + 1;
            proof {
                let rest = s@.skip(pos as int).skip(m as int);
                assert(rest.take(j - start) =~= s@.subrange(start as int, j as int));
                assert(rest.skip(j - start + 1) =~= s@.skip(newpos as int));
            }
            Some((v, newpos))
        },
    }
}

/// Decodes the backing file's text into a store.  Text that the encoder
/// could not have produced for any store is a parse failure — it is never
/// read as an empty store.
pub fn parse_config(s: &str) -> (r: Result<CliConfig, CliError>)
    ensures
        match r {
            Ok(cfg) => spec_parse(s@) == Some(cfg@),
            Err(e) => spec_parse(s@) is None && e == CliError::Parse,
        },
{
    let n = s.unicode_len();
    let hdr = "clusters:\n";
    let hlen = hdr.unicode_len();
    proof {
        assert(s@.skip(0) =~= s@);
    }
    if !match_at(s, 0, hdr) {
        return Err(CliError::Parse);
    }
    let mut pos: usize = hlen;
    let mut acc: Vec<Cluster> = Vec::new();
    proof {
        assert(clusters_view(acc@) =~= Seq::<ClusterView>::empty());
    }
    while pos < n
        invariant
            n == s@.len(),
            hlen == header().len(),
            pos <= n,
            header().is_prefix_of(s@),
            match parse_clusters(s@.skip(pos as int)) {
                Some(cs) => spec_parse(s@) == Some(clusters_view(acc@) + cs),
                None => spec_parse(s@) is None,
            },
        decreases n - pos,
    {
        let ghost suffix = s@.skip(pos as int);
        let f1 = match parse_field_at(s, pos, "- name: ") {
            Some(f) => f,
            None => {
                return Err(CliError::Parse);
            },
        };
        let f2 = match parse_field_at(s, f1.1, "  url: ") {
            Some(f) => f,
            None => {
                return Err(CliError::Parse);
            },
        };
        let f3 = match parse_field_at(s, f2.1, "  username: ") {
            Some(f) => f,
            None => {
                return Err(CliError::Parse);
            },
        };
        let f4 = match parse_field_at(s, f3.1, "  comment: ") {
            Some(f) => f,
            None => {
                return Err(CliError::Parse);
            },
        };
        let newpos = f4.1;
        let cl = Cluster { name: f1.0, url: f2.0, username: f3.0, comment: f4.0 };
        proof {
            assert(parse_cluster(suffix) == Some((cl@, s@.skip(newpos as int))));
            assert(s@.skip(newpos as int).len() < suffix.len());
            match parse_clusters(s@.skip(newpos as int)) {
                Some(cs2) => {
                    assert(parse_clusters(suffix) == Some(seq![cl@] + cs2));
                    assert(clusters_view(acc@.push(cl)) =~= clusters_view(acc@).push(cl@));
                    assert(clusters_view(acc@) + (seq![cl@] + cs2) =~= clusters_view(acc@).push(
                        cl@,
                    ) + cs2);
                },
                None => {
                    assert(parse_clusters(suffix) is None);
                },
            }
        }
        acc.push(cl);
        pos = newpos;
    }
    proof {
        assert(s@.skip(pos as int) =~= Seq::<char>::empty());
        assert(parse_clusters(s@.skip(pos as int)) == Some(Seq::<ClusterView>::empty()));
        assert(clusters_view(acc@) + Seq::<ClusterView>::empty() =~= clusters_view(acc@));
    }
    Ok(CliConfig { clusters: acc })
}

/// Law: the save/load round-trip is the identity — decoding the encoded text
/// of any store whose profiles are well formed (no line break in any field)
/// yields that store back, profile for profile and field for field.
pub proof fn lemma_round_trip(cs: Seq<ClusterView>)
    requires
        config_wf(cs),
    ensures
        spec_parse(spec_encode(cs)) == Some(cs),
{
    let s = spec_encode(cs);
    let hlen = header().len() as int;
    assert(header() =~= s.subrange(0, hlen));
    assert(header().is_prefix_of(s));
    assert(s.skip(hlen) =~= encode_clusters(cs));
    lemma_parse_clusters_encode(cs);
}

} // verus!
