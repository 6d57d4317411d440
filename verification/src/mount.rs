use vstd::prelude::*;
use crate::http::{
    forbidden_response, not_found_response, Request, RequestView, Response, ResponseView,
};
use crate::path::{
    chars_of, escapes_root, is_under, leaves_root, make_relative, mount_key, normalize_route,
    relative, rewrite, rewritten, under,
};
use crate::routes::{Handler, RouteTable};

verus! {

/// A static file root: the directory that files are served from, and for
/// how many seconds a client may cache what it was served.
#[derive(Debug, PartialEq, Eq)]
pub struct StaticFiles {
    pub root: String,
    pub cache_secs: u64,
}

impl StaticFiles {
    /// A static root at `root` whose files are not to be cached.
    pub fn new(root: &str) -> (files: StaticFiles)
        ensures
            files.root@ == root@,
            files.cache_secs == 0,
    {
        StaticFiles { root: root.to_owned(), cache_secs: 0 }
    }

    /// The same root with a cache lifetime of `secs` seconds.
    pub fn cache(self, secs: u64) -> (files: StaticFiles)
        ensures
            files.root@ == self.root@,
            files.cache_secs == secs,
    {
        StaticFiles { root: self.root, cache_secs: secs }
    }
}

/// What a prefix can be mounted to.
pub enum Target<H> {
    /// A route table: the rewritten path must match a route exactly.
    Routes(RouteTable<H>),
    /// A static root: the rewritten path names a file below it.
    Files(StaticFiles),
    /// Another mount table, which sees the rewritten path.
    Nested(MountTable<H>),
}

struct MountEntry<H> {
    key: Vec<char>,
    target: Target<H>,
}

/// Maps path prefixes to targets. A request goes to the target with the
/// longest prefix that its path lies under.
pub struct MountTable<H> {
    entries: Vec<MountEntry<H>>,
}

/// Where a mount table sends a request.
pub enum Routed<'a, H> {
    /// To a handler, which is to answer the rewritten request.
    Handler { handler: &'a H, request: Request },
    /// To a static root, which is to look up a file by its path relative to
    /// the root.
    File { root: String, relative: String, cache_secs: u64 },
    /// Nowhere: no mount or no route matches.
    NotFound,
    /// Nowhere: the path would leave the static root it is mounted to.
    Forbidden,
}

/// Mathematical model of a [`Routed`].
pub enum RoutedView<H> {
    Handler { handler: H, request: RequestView },
    File { root: Seq<char>, relative: Seq<char>, cache_secs: u64 },
    NotFound,
    Forbidden,
}

impl<'a, H> View for Routed<'a, H> {
    type V = RoutedView<H>;

    open spec fn view(&self) -> RoutedView<H> {
        match *self {
            Routed::Handler { handler, request } => RoutedView::Handler {
                handler: *handler,
                request: request@,
            },
            Routed::File { root, relative, cache_secs } => RoutedView::File {
                root: root@,
                relative: relative@,
                cache_secs,
            },
            Routed::NotFound => RoutedView::NotFound,
            Routed::Forbidden => RoutedView::Forbidden,
        }
    }
}

/// What a mount table gives for a request: the response of the target, or
/// the file that a static root is to be asked for.
#[derive(Debug, PartialEq, Eq)]
pub enum Dispatched {
    Answered(Response),
    File { root: String, relative: String, cache_secs: u64 },
}

/// Mathematical model of a [`Dispatched`].
pub enum DispatchedView {
    Answered(ResponseView),
    File { root: Seq<char>, relative: Seq<char>, cache_secs: u64 },
}

impl View for Dispatched {
    type V = DispatchedView;

    open spec fn view(&self) -> DispatchedView {
        match *self {
            Dispatched::Answered(response) => DispatchedView::Answered(response@),
            Dispatched::File { root, relative, cache_secs } => DispatchedView::File {
                root: root@,
                relative: relative@,
                cache_secs,
            },
        }
    }
}

/// The index of the entry that serves `path`: the one with the longest key
/// that the path lies under, and of several with that key the last.
spec fn best<H>(entries: Seq<MountEntry<H>>, path: Seq<char>) -> Option<int>
    decreases entries.len(),
{
    if entries.len() == 0 {
        None
    } else {
        let before = best(entries.drop_last(), path);
        let last = entries.last();
        if under(last.key@, path) && (before is None || entries[before.unwrap()].key@.len()
            <= last.key@.len()) {
            Some(entries.len() - 1)
        } else {
            before
        }
    }
}

/// The map that a list of mounts stands for; of two mounts with one key the
/// later counts.
spec fn mount_map<H>(entries: Seq<MountEntry<H>>) -> Map<Seq<char>, Target<H>>
    decreases entries.len(),
{
    if entries.len() == 0 {
        Map::empty()
    } else {
        mount_map(entries.drop_last()).insert(entries.last().key@, entries.last().target)
    }
}

/// Where `target` sends a request whose path was already rewritten for
/// it. A route table resolves method and path exactly. A static root gets
/// the path without its leading slash, unless that path would leave the
/// root. A nested mount table routes the request in turn.
pub open spec fn target_route<H>(target: Target<H>, request: RequestView) -> RoutedView<H>
    decreases target, 0int,
{
    match target {
        Target::Routes(table) => match table.spec_resolve(request.method, request.path) {
            Some(handler) => RoutedView::Handler { handler: *handler, request },
            None => RoutedView::NotFound,
        },
        Target::Files(files) => if escapes_root(relative(request.path)) {
            RoutedView::Forbidden
        } else {
            RoutedView::File {
                root: files.root@,
                relative: relative(request.path),
                cache_secs: files.cache_secs,
            }
        },
        Target::Nested(table) => table.spec_route(request),
    }
}

impl<H> View for MountTable<H> {
    type V = Map<Seq<char>, Target<H>>;

    closed spec fn view(&self) -> Map<Seq<char>, Target<H>> {
        mount_map(self.entries@)
    }
}

impl<H> MountTable<H> {
    /// Where this table sends `request`: to the target mounted under the
    /// longest key that the path lies under, with the path rewritten to
    /// what follows that key; nowhere if the path lies under no key.
    /// `lemma_longest_prefix_wins` and `lemma_unmounted_not_found` state
    /// this over the table's view.
    pub closed spec fn spec_route(&self, request: RequestView) -> RoutedView<H>
        decreases self, 1int,
    {
        match best(self.entries@, request.path) {
            Some(i) => if 0 <= i < self.entries.len() {
                target_route(
                    self.entries[i].target,
                    RequestView {
                        method: request.method,
                        path: rewritten(self.entries[i].key@, request.path),
                    },
                )
            } else {
                RoutedView::NotFound
            },
            None => RoutedView::NotFound,
        }
    }

    /// A table without mounts.
    pub fn new() -> (table: Self)
        ensures
            table@ == Map::<Seq<char>, Target<H>>::empty(),
    {
        MountTable { entries: Vec::new() }
    }

    /// Mounts `target` under `route`. Trailing slashes do not count, so
    /// `"/static/"` and `"/static"` name one mount, and `"/"` the root. A
    /// target mounted earlier under the same route is replaced.
    pub fn mount(&mut self, route: &str, target: Target<H>)
        ensures
            final(self)@ == old(self)@.insert(mount_key(route@), target),
    {
        let key = normalize_route(route);
        let ghost before = self.entries@;
        self.entries.push(MountEntry { key, target });
        assert(self.entries@.drop_last() == before);
    }

    /// Whether `dispatched` may come back for `request`: an answer of the
    /// handler that the request is routed to, given to the rewritten
    /// request; the file that a static root is to be asked for; the
    /// not-found response where nothing matches; the forbidden response
    /// where the path would leave a static root.
    pub open spec fn dispatches(&self, request: RequestView, dispatched: DispatchedView) -> bool
        where H: Handler
    {
        match self.spec_route(request) {
            RoutedView::Handler { handler, request: rewritten } => {
                dispatched matches DispatchedView::Answered(response) && handler.replies(
                    rewritten,
                    response,
                )
            },
            RoutedView::File { root, relative, cache_secs } => dispatched == (DispatchedView::File {
                root,
                relative,
                cache_secs,
            }),
            RoutedView::NotFound => dispatched == DispatchedView::Answered(not_found_response()),
            RoutedView::Forbidden => dispatched == DispatchedView::Answered(forbidden_response()),
        }
    }

    /// Routes `request` and lets the target answer it.
    pub fn dispatch(&self, request: &Request) -> (dispatched: Dispatched) where H: Handler
        ensures
            self.dispatches(request@, dispatched@),
    {
        match self.route(request) {
            Routed::Handler { handler, request: rewritten } => Dispatched::Answered(
                handler.handle(&rewritten),
            ),
            Routed::File { root, relative, cache_secs } => Dispatched::File {
                root,
                relative,
                cache_secs,
            },
            Routed::NotFound => Dispatched::Answered(Response::not_found()),
            Routed::Forbidden => Dispatched::Answered(Response::forbidden()),
        }
    }

    /// Decides where `request` goes.
    pub fn route<'a>(&'a self, request: &Request) -> (routed: Routed<'a, H>)
        ensures
            routed@ == self.spec_route(request@),
        decreases self,
    {
        let path = chars_of(request.path.as_str());
        let mut found: Option<usize> = None;
        let mut found_len: usize = 0;
        let mut i: usize = 0;
        assert(self.entries@.take(0).len() == 0);
        while i < self.entries.len()
            invariant
                i <= self.entries@.len(),
                path@ == request.path@,
                match found {
                    Some(k) => k < i && found_len == self.entries@[k as int].key@.len() && best(
                        self.entries@.take(i as int),
                        path@,
                    ) == Some(k as int),
                    None => best(self.entries@.take(i as int), path@) is None,
                },
            decreases self.entries@.len() - i,
        {
            let entry = &self.entries[i];
            proof {
                let next = self.entries@.take(i + 1);
                assert(next.drop_last() == self.entries@.take(i as int));
                assert(next.last() == self.entries@[i as int]);
                if found is Some {
                    assert(next[found.unwrap() as int] == self.entries@[found.unwrap() as int]);
                }
            }
            if is_under(&entry.key, &path) && (found.is_none() || found_len <= entry.key.len()) {
                found = Some(i);
                found_len = entry.key.len();
            }
            i = i + 1;
        }
        assert(self.entries@.take(i as int) == self.entries@);
        match found {
            None => Routed::NotFound,
            Some(k) => {
                let entry = &self.entries[k];
                let rest = rewrite(entry.key.len(), request.path.as_str());
                match &entry.target {
                    Target::Routes(table) => {
                        match table.resolve(request.method, rest.as_str()) {
                            Some(handler) => Routed::Handler {
                                handler,
                                request: Request { method: request.method, path: rest },
                            },
                            None => Routed::NotFound,
                        }
                    },
                    Target::Files(files) => {
                        let rel = make_relative(rest.as_str());
                        if leaves_root(rel.as_str()) {
                            Routed::Forbidden
                        } else {
                            Routed::File {
                                root: files.root.clone(),
                                relative: rel,
                                cache_secs: files.cache_secs,
                            }
                        }
                    },
                    Target::Nested(table) => {
                        let inner = Request { method: request.method, path: rest };
                        table.route(&inner)
                    },
                }
            },
        }
    }
}

proof fn lemma_best<H>(entries: Seq<MountEntry<H>>, path: Seq<char>)
    ensures
        match best(entries, path) {
            Some(i) => {
                &&& 0 <= i < entries.len()
                &&& under(entries[i].key@, path)
                &&& forall|j: int|
                    0 <= j < entries.len() && under(#[trigger] entries[j].key@, path)
                        ==> entries[j].key@.len() <= entries[i].key@.len()
                &&& forall|j: int|
                    i < j < entries.len() && under(#[trigger] entries[j].key@, path)
                        ==> entries[j].key@.len() < entries[i].key@.len()
            },
            None => forall|j: int| 0 <= j < entries.len() ==> !under(#[trigger] entries[j].key@, path),
        },
    decreases entries.len(),
{
    if entries.len() > 0 {
        let front = entries.drop_last();
        lemma_best(front, path);
        assert forall|j: int| 0 <= j < front.len() implies front[j] == entries[j] by {}
        match best(entries, path) {
            Some(i) => {
                assert forall|j: int|
                    0 <= j < entries.len() && under(
                        #[trigger] entries[j].key@,
                        path,
                    ) implies entries[j].key@.len() <= entries[i].key@.len() by {
                    if j < front.len() {
                        assert(front[j] == entries[j]);
                    }
                }
                assert forall|j: int|
                    i < j < entries.len() && under(
                        #[trigger] entries[j].key@,
                        path,
                    ) implies entries[j].key@.len() < entries[i].key@.len() by {
                    if j < front.len() {
                        assert(front[j] == entries[j]);
                    }
                }
            },
            None => {
                assert forall|j: int| 0 <= j < entries.len() implies !under(
                    #[trigger] entries[j].key@,
                    path,
                ) by {
                    if j < front.len() {
                        assert(front[j] == entries[j]);
                    }
                }
            },
        }
    }
}

proof fn lemma_mounted<H>(entries: Seq<MountEntry<H>>, key: Seq<char>)
    requires
        mount_map(entries).dom().contains(key),
    ensures
        exists|j: int| 0 <= j < entries.len() && #[trigger] entries[j].key@ == key,
    decreases entries.len(),
{
    if entries.len() > 0 {
        if entries.last().key@ == key {
            assert(entries[entries.len() - 1].key@ == key);
        } else {
            lemma_mounted(entries.drop_last(), key);
            let j = choose|j: int|
                0 <= j < entries.drop_last().len() && #[trigger] entries.drop_last()[j].key@ == key;
            assert(entries[j].key@ == key);
        }
    }
}

proof fn lemma_last_mount<H>(entries: Seq<MountEntry<H>>, i: int)
    requires
        0 <= i < entries.len(),
        forall|j: int| i < j < entries.len() ==> #[trigger] entries[j].key@ != entries[i].key@,
    ensures
        mount_map(entries).dom().contains(entries[i].key@),
        mount_map(entries)[entries[i].key@] == entries[i].target,
    decreases entries.len(),
{
    if i < entries.len() - 1 {
        let front = entries.drop_last();
        assert forall|j: int| i < j < front.len() implies #[trigger] front[j].key@
            != front[i].key@ by {
            assert(front[j] == entries[j]);
        }
        lemma_last_mount(front, i);
        assert(entries[entries.len() - 1].key@ != entries[i].key@);
    }
}

/// The entry that serves a path is what the map holds under its key: no
/// later entry has the same key.
proof fn lemma_best_is_mounted<H>(entries: Seq<MountEntry<H>>, path: Seq<char>)
    requires
        best(entries, path) is Some,
    ensures
        ({
            let i = best(entries, path).unwrap();
            &&& 0 <= i < entries.len()
            &&& mount_map(entries).dom().contains(entries[i].key@)
            &&& mount_map(entries)[entries[i].key@] == entries[i].target
        }),
{
    lemma_best(entries, path);
    let i = best(entries, path).unwrap();
    assert forall|j: int| i < j < entries.len() implies #[trigger] entries[j].key@
        != entries[i].key@ by {
        if entries[j].key@ == entries[i].key@ {
            assert(under(entries[j].key@, path));
        }
    }
    lemma_last_mount(entries, i);
}

/// Two keys of one length that a path lies under are the same key.
proof fn lemma_same_length_same_key(a: Seq<char>, b: Seq<char>, path: Seq<char>)
    requires
        under(a, path),
        under(b, path),
        a.len() == b.len(),
    ensures
        a == b,
{
    if a.len() == 0 {
        assert(a =~= b);
    }
}

/// Longest-prefix mounting: a request goes to the target mounted under the
/// longest key that its path lies under, and that target sees the path
/// rewritten to what follows the key.
pub proof fn lemma_longest_prefix_wins<H>(table: MountTable<H>, request: RequestView, key: Seq<char>)
    requires
        table@.dom().contains(key),
        under(key, request.path),
        forall|other: Seq<char>|
            table@.dom().contains(other) && under(other, request.path) ==> other.len() <= key.len(),
    ensures
        table.spec_route(request) == target_route(
            table@[key],
            RequestView { method: request.method, path: rewritten(key, request.path) },
        ),
{
    let entries = table.entries@;
    let path = request.path;
    lemma_best(entries, path);
    lemma_mounted(entries, key);
    let j0 = choose|j: int| 0 <= j < entries.len() && #[trigger] entries[j].key@ == key;
    assert(under(entries[j0].key@, path));
    let i = best(entries, path).unwrap();
    lemma_best_is_mounted(entries, path);
    assert(entries[j0].key@.len() <= entries[i].key@.len());
    lemma_same_length_same_key(entries[i].key@, key, path);
}

/// A request whose path lies under no mounted key goes nowhere.
pub proof fn lemma_unmounted_not_found<H>(table: MountTable<H>, request: RequestView)
    requires
        forall|key: Seq<char>| table@.dom().contains(key) ==> !under(key, request.path),
    ensures
        table.spec_route(request) == RoutedView::<H>::NotFound,
{
    let entries = table.entries@;
    lemma_best(entries, request.path);
    if best(entries, request.path) is Some {
        lemma_best_is_mounted(entries, request.path);
    }
}

/// A mount at the root catches every request that no longer key catches:
/// with the root mounted, every request lies under some mounted key.
pub proof fn lemma_root_catches_all<H>(table: MountTable<H>, path: Seq<char>)
    requires
        table@.dom().contains(Seq::<char>::empty()),
    ensures
        exists|key: Seq<char>|
            table@.dom().contains(key) && #[trigger] under(key, path) && forall|other: Seq<char>|
                table@.dom().contains(other) && under(other, path) ==> other.len() <= key.len(),
{
    let entries = table.entries@;
    lemma_best(entries, path);
    lemma_mounted(entries, Seq::<char>::empty());
    let j0 = choose|j: int| 0 <= j < entries.len() && #[trigger] entries[j].key@ == Seq::<char>::empty();
    assert(under(entries[j0].key@, path));
    let i = best(entries, path).unwrap();
    lemma_best_is_mounted(entries, path);
    let key = entries[i].key@;
    assert forall|other: Seq<char>|
        table@.dom().contains(other) && under(other, path) implies other.len() <= key.len() by {
        lemma_mounted(entries, other);
        let j = choose|j: int| 0 <= j < entries.len() && #[trigger] entries[j].key@ == other;
        assert(under(entries[j].key@, path));
    }
    assert(under(key, path));
}

} // verus!
