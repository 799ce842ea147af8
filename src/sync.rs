use vstd::prelude::*;
use vstd::string::*;

use crate::text::{
    ends_with, has_prefix, has_suffix, lines_of, percent_decode, percent_decoded, percent_encode,
    percent_encoded, split_lines, starts_with, trim, trim_end_char, trim_end_matches, trimmed_of,
};

verus! {

/// The two independently synchronised file collections.
#[derive(Debug, Clone, Copy, PartialEq, Eq)]
pub enum Collection {
    /// Opaque user files, stored verbatim.
    Anga,
    /// Metadata sidecar files, limited to the `.toml` extension.
    Meta,
}

/// The path segment that names a collection on the server and on disk.
pub open spec fn collection_segment(c: Collection) -> Seq<char> {
    match c {
        Collection::Anga => "anga"@,
        Collection::Meta => "meta"@,
    }
}

/// The extension that every metadata file carries.
pub open spec fn meta_suffix() -> Seq<char> {
    seq!['.', 't', 'o', 'm', 'l']
}

/// The set of names held in a list of strings.
pub open spec fn names(v: Seq<String>) -> Set<Seq<char>> {
    Set::new(|n: Seq<char>| exists|i: int| 0 <= i < v.len() && #[trigger] v[i]@ == n)
}

/// No name occurs twice in the list.
pub open spec fn distinct_names(v: Seq<String>) -> bool {
    forall|i: int, j: int| 0 <= i < j < v.len() ==> #[trigger] v[i]@ != #[trigger] v[j]@
}

/// What one line of a remote listing contributes: its trimmed,
/// percent-decoded text, or nothing when decoding fails.
pub open spec fn listing_entry(line: Seq<char>) -> Seq<char> {
    match percent_decoded(trimmed_of(line)) {
        Some(d) => d,
        None => Seq::empty(),
    }
}

/// The file names that a remote listing body announces.
pub open spec fn listed_names(body: Seq<char>) -> Set<Seq<char>> {
    Set::new(
        |n: Seq<char>|
            n.len() > 0 && exists|i: int|
                0 <= i < lines_of(body).len() && #[trigger] listing_entry(lines_of(body)[i]) == n,
    )
}

/// A local file name takes part in the collection's synchronisation.
pub open spec fn is_tracked_name(c: Collection, name: Seq<char>) -> bool {
    !has_prefix(name, seq!['.']) && (c == Collection::Meta ==> has_suffix(name, meta_suffix()))
}

/// The transfers of one cycle over one collection.
pub struct SyncPlan {
    /// Names that the server has and the local directory lacks.
    pub to_download: Vec<String>,
    /// Names that the local directory has and the server lacks.
    pub to_upload: Vec<String>,
}

/// The plan for the given remote and local name sets.
pub open spec fn plans(p: SyncPlan, remote: Set<Seq<char>>, local: Set<Seq<char>>) -> bool {
    &&& names(p.to_download@) == remote.difference(local)
    &&& names(p.to_upload@) == local.difference(remote)
    &&& distinct_names(p.to_download@)
    &&& distinct_names(p.to_upload@)
}

/// The local names once every planned download has landed.
pub open spec fn local_after(remote: Set<Seq<char>>, local: Set<Seq<char>>) -> Set<Seq<char>> {
    local.union(remote.difference(local))
}

/// The remote names once every planned upload has landed.
pub open spec fn remote_after(remote: Set<Seq<char>>, local: Set<Seq<char>>) -> Set<Seq<char>> {
    remote.union(local.difference(remote))
}

/// How the server answered an upload.
#[derive(Debug, Clone, Copy, PartialEq, Eq)]
pub enum UploadOutcome {
    /// A 2xx status: the file was stored.
    Stored,
    /// 409 Conflict: the server already holds the file.
    AlreadyPresent,
    /// Any other status, reported and otherwise ignored.
    Rejected(u16),
}

/// The HTTP status is in the success class.
pub open spec fn is_success_status(status: u16) -> bool {
    200 <= status <= 299
}

/// Diff correctness: the names to download and the names to upload never
/// overlap, and together they are exactly the names that one side has and
/// the other lacks.
pub proof fn lemma_plan_partitions(remote: Set<Seq<char>>, local: Set<Seq<char>>)
    ensures
        remote.difference(local).disjoint(local.difference(remote)),
        remote.difference(local).union(local.difference(remote)) == remote.union(local).difference(
            remote.intersect(local),
        ),
{
    assert(remote.difference(local).union(local.difference(remote)) =~= remote.union(
        local,
    ).difference(remote.intersect(local)));
}

/// Idempotence: once a cycle's transfers have all landed, the next cycle
/// over the same sides plans nothing.
pub proof fn lemma_second_cycle_is_idle(remote: Set<Seq<char>>, local: Set<Seq<char>>)
    ensures
        remote_after(remote, local).difference(local_after(remote, local)) == Set::<
            Seq<char>,
        >::empty(),
        local_after(remote, local).difference(remote_after(remote, local)) == Set::<
            Seq<char>,
        >::empty(),
        remote_after(remote, local) == local_after(remote, local),
{
    assert(remote_after(remote, local) =~= local_after(remote, local));
    assert(remote_after(remote, local).difference(local_after(remote, local)) =~= Set::<
        Seq<char>,
    >::empty());
    assert(local_after(remote, local).difference(remote_after(remote, local)) =~= Set::<
        Seq<char>,
    >::empty());
}

/// Whether `v` holds `name`.
pub fn contains_name(v: &Vec<String>, name: &String) -> (r: bool)
    ensures
        r == names(v@).contains(name@),
{
    let mut i: usize = 0;
    while i < v.len()
        invariant
            i <= v@.len(),
            forall|j: int| 0 <= j < i ==> v@[j]@ != name@,
        decreases v@.len() - i,
    {
        if v[i] == *name {
            assert(v@[i as int]@ == name@);
            return true;
        }
        i += 1;
    }
    false
}

/// The names of `a` that `b` lacks, each once, in the order of `a`.
pub fn name_difference(a: &Vec<String>, b: &Vec<String>) -> (r: Vec<String>)
    ensures
        names(r@) == names(a@).difference(names(b@)),
        distinct_names(r@),
{
    let mut r: Vec<String> = Vec::new();
    let mut i: usize = 0;
    while i < a.len()
        invariant
            i <= a@.len(),
            names(r@) =~= names(a@.subrange(0, i as int)).difference(names(b@)),
            distinct_names(r@),
        decreases a@.len() - i,
    {
        let ghost before = r@;
        let in_b = contains_name(b, &a[i]);
        let seen = contains_name(&r, &a[i]);
        if !in_b && !seen {
            r.push(a[i].clone());
            assert forall|x: int, y: int| 0 <= x < y < r@.len() implies #[trigger] r@[x]@
                != #[trigger] r@[y]@ by {
                if y == r@.len() - 1 {
                    assert(before[x]@ == r@[x]@);
                    assert(names(before).contains(before[x]@));
                } else {
                    assert(before[x] == r@[x] && before[y] == r@[y]);
                }
            }
        }
        proof {
            let pre = a@.subrange(0, i as int);
            let post = a@.subrange(0, i as int + 1);
            assert(names(post) =~= names(pre).insert(a@[i as int]@)) by {
                assert forall|n: Seq<char>| names(post).contains(n) implies names(pre).insert(
                    a@[i as int]@,
                ).contains(n) by {
                    let k = choose|k: int| 0 <= k < post.len() && #[trigger] post[k]@ == n;
                    if k < i {
                        assert(pre[k] == post[k]);
                    }
                }
                assert forall|n: Seq<char>| names(pre).insert(a@[i as int]@).contains(
                    n,
                ) implies names(post).contains(n) by {
                    if n == a@[i as int]@ {
                        assert(post[i as int]@ == n);
                    } else {
                        let k = choose|k: int| 0 <= k < pre.len() && #[trigger] pre[k]@ == n;
                        assert(post[k] == pre[k]);
                    }
                }
            }
            if !in_b && !seen {
                assert(names(r@) =~= names(before).insert(a@[i as int]@)) by {
                    assert forall|n: Seq<char>| names(r@).contains(n) implies names(
                        before,
                    ).insert(a@[i as int]@).contains(n) by {
                        let k = choose|k: int| 0 <= k < r@.len() && #[trigger] r@[k]@ == n;
                        if k < before.len() {
                            assert(before[k] == r@[k]);
                        }
                    }
                    assert forall|n: Seq<char>| names(before).insert(a@[i as int]@).contains(
                        n,
                    ) implies names(r@).contains(n) by {
                        if n == a@[i as int]@ {
                            assert(r@[before.len() as int]@ == n);
                        } else {
                            let k = choose|k: int|
                                0 <= k < before.len() && #[trigger] before[k]@ == n;
                            assert(r@[k] == before[k]);
                        }
                    }
                }
            }
        }
        i += 1;
    }
    assert(a@.subrange(0, a@.len() as int) =~= a@);
    r
}

/// Plans one cycle: download what only the server has, upload what only the
/// local directory has.
pub fn plan_sync(remote: &Vec<String>, local: &Vec<String>) -> (r: SyncPlan)
    ensures
        plans(r, names(remote@), names(local@)),
{
    let to_download = name_difference(remote, local);
    let to_upload = name_difference(local, remote);
    SyncPlan { to_download, to_upload }
}

/// `names(v.push(s))` adds the name of `s`.
proof fn lemma_names_push(v: Seq<String>, s: String)
    ensures
        names(v.push(s)) == names(v).insert(s@),
{
    let w = v.push(s);
    assert forall|n: Seq<char>| names(w).contains(n) implies names(v).insert(s@).contains(n) by {
        let k = choose|k: int| 0 <= k < w.len() && #[trigger] w[k]@ == n;
        if k < v.len() {
            assert(v[k] == w[k]);
        }
    }
    assert forall|n: Seq<char>| names(v).insert(s@).contains(n) implies names(w).contains(n) by {
        if n == s@ {
            assert(w[v.len() as int]@ == n);
        } else {
            let k = choose|k: int| 0 <= k < v.len() && #[trigger] v[k]@ == n;
            assert(w[k] == v[k]);
        }
    }
    assert(names(w) =~= names(v).insert(s@));
}

/// The non-empty entries among the first `k` lines of a listing body.
pub open spec fn listed_in_prefix(body: Seq<char>, k: int) -> Set<Seq<char>> {
    Set::new(
        |n: Seq<char>|
            n.len() > 0 && exists|i: int|
                0 <= i < k && #[trigger] listing_entry(lines_of(body)[i]) == n,
    )
}

/// The file names of a remote listing: one per line, trimmed and
/// percent-decoded; blank lines and lines that fail to decode are dropped.
pub fn parse_listing(body: &str) -> (r: Vec<String>)
    ensures
        names(r@) == listed_names(body@),
        forall|i: int| 0 <= i < r@.len() ==> (#[trigger] r@[i])@.len() > 0,
{
    let lines = split_lines(body);
    let ghost ls = lines_of(body@);
    let mut r: Vec<String> = Vec::new();
    let mut i: usize = 0;
    while i < lines.len()
        invariant
            i <= lines@.len(),
            lines@.len() == ls.len(),
            ls == lines_of(body@),
            forall|j: int| 0 <= j < lines@.len() ==> #[trigger] lines@[j]@ == ls[j],
            names(r@) == listed_in_prefix(body@, i as int),
            forall|j: int| 0 <= j < r@.len() ==> (#[trigger] r@[j])@.len() > 0,
        decreases lines@.len() - i,
    {
        let ghost before = r@;
        let line = trim(lines[i].as_str());
        let entry = percent_decode(line);
        assert(lines@[i as int]@ == ls[i as int]);
        if let Some(d) = entry {
            if !d.as_str().is_empty() {
                proof {
                    lemma_names_push(before, d);
                }
                r.push(d);
            }
        }
        assert(names(r@) =~= listed_in_prefix(body@, i as int + 1)) by {
            assert forall|n: Seq<char>| listed_in_prefix(body@, i as int + 1).contains(
                n,
            ) implies names(r@).contains(n) by {
                let k = choose|k: int|
                    0 <= k < i + 1 && #[trigger] listing_entry(lines_of(body@)[k]) == n;
                if k < i {
                    assert(listed_in_prefix(body@, i as int).contains(n));
                }
            }
            assert forall|n: Seq<char>| names(r@).contains(n) implies listed_in_prefix(
                body@,
                i as int + 1,
            ).contains(n) by {
                if !names(before).contains(n) {
                    assert(listing_entry(lines_of(body@)[i as int]) == n);
                } else {
                    assert(listed_in_prefix(body@, i as int).contains(n));
                    let k = choose|k: int|
                        0 <= k < i && #[trigger] listing_entry(lines_of(body@)[k]) == n;
                    assert(listing_entry(lines_of(body@)[k]) == n);
                }
            }
        }
        i += 1;
    }
    assert(listed_in_prefix(body@, ls.len() as int) =~= listed_names(body@));
    r
}

/// Whether a local file name takes part in the collection's synchronisation:
/// hidden names never do, and metadata files must end in `.toml`.
pub fn is_tracked(c: Collection, name: &str) -> (r: bool)
    ensures
        r == is_tracked_name(c, name@),
{
    proof {
        reveal_strlit(".");
        reveal_strlit(".toml");
    }
    assert("."@ =~= seq!['.']);
    assert(".toml"@ =~= meta_suffix());
    if starts_with(name, ".") {
        return false;
    }
    match c {
        Collection::Anga => true,
        Collection::Meta => ends_with(name, ".toml"),
    }
}

/// The local names that take part in the collection's synchronisation.
pub fn tracked_names(c: Collection, local: &Vec<String>) -> (r: Vec<String>)
    ensures
        names(r@) == names(local@).filter(|n: Seq<char>| is_tracked_name(c, n)),
{
    let mut r: Vec<String> = Vec::new();
    let mut i: usize = 0;
    while i < local.len()
        invariant
            i <= local@.len(),
            names(r@) == names(local@.subrange(0, i as int)).filter(
                |n: Seq<char>| is_tracked_name(c, n),
            ),
        decreases local@.len() - i,
    {
        let ghost before = r@;
        let ghost pre = local@.subrange(0, i as int);
        let ghost post = local@.subrange(0, i as int + 1);
        proof {
            assert(post =~= pre.push(local@[i as int]));
            lemma_names_push(pre, local@[i as int]);
        }
        if is_tracked(c, local[i].as_str()) {
            proof {
                lemma_names_push(before, local@[i as int]);
            }
            r.push(local[i].clone());
        }
        assert(names(r@) =~= names(post).filter(|n: Seq<char>| is_tracked_name(c, n)));
        i += 1;
    }
    assert(local@.subrange(0, local@.len() as int) =~= local@);
    r
}

/// The listing endpoint of a collection.
pub open spec fn collection_url_of(server: Seq<char>, email: Seq<char>, c: Collection) -> Seq<
    char,
> {
    trim_end_char(server, '/') + "/api/v1/"@ + percent_encoded(email) + "/"@ + collection_segment(c)
}

/// The endpoint of one file of a collection.
pub open spec fn file_url_of(
    server: Seq<char>,
    email: Seq<char>,
    c: Collection,
    filename: Seq<char>,
) -> Seq<char> {
    collection_url_of(server, email, c) + "/"@ + percent_encoded(filename)
}

/// The path segment of a collection.
pub fn segment(c: Collection) -> (r: &'static str)
    ensures
        r@ == collection_segment(c),
{
    match c {
        Collection::Anga => "anga",
        Collection::Meta => "meta",
    }
}

/// `{server without trailing '/'}/api/v1/{email, percent-encoded}/{collection}`.
pub fn collection_url(server: &str, email: &str, c: Collection) -> (r: String)
    ensures
        r@ == collection_url_of(server@, email@, c),
{
    let base = trim_end_matches(server, '/');
    let mut url = base.to_owned();
    url.append("/api/v1/");
    let enc = percent_encode(email);
    url.append(enc.as_str());
    url.append("/");
    url.append(segment(c));
    url
}

/// The collection endpoint followed by `/` and the percent-encoded file name.
pub fn file_url(server: &str, email: &str, c: Collection, filename: &str) -> (r: String)
    ensures
        r@ == file_url_of(server@, email@, c, filename@),
{
    let mut url = collection_url(server, email, c);
    url.append("/");
    let enc = percent_encode(filename);
    url.append(enc.as_str());
    url
}

/// Classifies the status of an upload: 409 means the server already has the
/// file, which counts as success; other non-2xx statuses are rejections.
pub fn upload_outcome(status: u16) -> (r: UploadOutcome)
    ensures
        status == 409 ==> r == UploadOutcome::AlreadyPresent,
        is_success_status(status) ==> r == UploadOutcome::Stored,
        status != 409 && !is_success_status(status) ==> r == UploadOutcome::Rejected(status),
{
    if status == 409 {
        UploadOutcome::AlreadyPresent
    } else if 200 <= status && status <= 299 {
        UploadOutcome::Stored
    } else {
        UploadOutcome::Rejected(status)
    }
}

impl UploadOutcome {
    /// Whether the outcome is reported as a failure.
    pub fn is_failure(&self) -> (r: bool)
        ensures
            r == (self is Rejected),
    {
        match self {
            UploadOutcome::Rejected(_) => true,
            _ => false,
        }
    }
}

/// Whether a download's body is written to disk: only on a 2xx status;
/// any other status skips the file silently.
pub fn download_accepted(status: u16) -> (r: bool)
    ensures
        r == is_success_status(status),
{
    200 <= status && status <= 299
}

/// Whether a listing response lets the cycle go on: only a 2xx status.
pub fn listing_accepted(status: u16) -> (r: bool)
    ensures
        r == is_success_status(status),
{
    200 <= status && status <= 299
}

} // verus!
