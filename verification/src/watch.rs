//! Routes from patterns of paths to handlers.

use vstd::prelude::*;

use crate::text::{begins_with, cat, has_char, is_empty_text, owned, same_text, split_text};
use crate::vfs_path::{VfsError, VfsPath, VfsResult};

verus! {

/// One segment of a pattern.
#[derive(Clone, Debug)]
enum PatternSegment {
    Literal(String),
    Wildcard,
}

/// A pattern of paths: each of its segments stands for itself or for any one
/// segment.
#[derive(Clone, Debug)]
pub struct PathPattern {
    segments: Vec<PatternSegment>,
}

spec fn segment_view(s: PatternSegment) -> Option<Seq<char>> {
    match s {
        PatternSegment::Literal(l) => Some(l@),
        PatternSegment::Wildcard => None,
    }
}

impl View for PathPattern {
    /// The segments; `None` stands for any one.
    type V = Seq<Option<Seq<char>>>;

    closed spec fn view(&self) -> Seq<Option<Seq<char>>> {
        self.segments@.map_values(|s: PatternSegment| segment_view(s))
    }
}

/// The pattern that pieces of text come to, or the first piece that is a
/// partial wildcard. Empty pieces do not count.
pub open spec fn pattern_of(pieces: Seq<Seq<char>>) -> Result<Seq<Option<Seq<char>>>, Seq<char>>
    decreases pieces.len(),
{
    if pieces.len() == 0 {
        Ok(Seq::empty())
    } else {
        let piece = pieces.last();
        match pattern_of(pieces.drop_last()) {
            Err(bad) => Err(bad),
            Ok(p) => if piece.len() == 0 {
                Ok(p)
            } else if piece == "*"@ {
                Ok(p.push(None))
            } else if piece.contains('*') {
                Err(piece)
            } else {
                Ok(p.push(Some(piece)))
            },
        }
    }
}

/// A segment of a pattern stands for a segment of a path.
pub open spec fn segment_matches(p: Option<Seq<char>>, seg: Seq<char>) -> bool {
    match p {
        Some(l) => l == seg,
        None => true,
    }
}

/// A pattern covers a path: they have as many segments, and each stands for
/// the one at its place.
pub open spec fn covers(p: Seq<Option<Seq<char>>>, path: Seq<Seq<char>>) -> bool {
    &&& p.len() == path.len()
    &&& forall|i: int| 0 <= i < p.len() ==> segment_matches(#[trigger] p[i], path[i])
}

/// How many segments of a pattern stand for themselves.
pub open spec fn literals(p: Seq<Option<Seq<char>>>) -> nat
    decreases p.len(),
{
    if p.len() == 0 {
        0
    } else {
        literals(p.drop_last()) + if p.last() is Some {
            1nat
        } else {
            0nat
        }
    }
}

/// The pattern of one path.
pub open spec fn exactly(path: Seq<Seq<char>>) -> Seq<Option<Seq<char>>> {
    path.map_values(|s: Seq<char>| Some(s))
}

impl PathPattern {
    /// Reads a pattern. `*` is one segment; a `*` inside a longer one is
    /// refused.
    pub fn parse(s: &str) -> (r: VfsResult<PathPattern>)
        ensures
            match pattern_of(crate::text::split_on(s@, '/')) {
                Ok(p) => r matches Ok(q) && q@ == p,
                Err(bad) => r matches Err(VfsError::InvalidPath(m)) && m@
                    == "partial wildcards not supported: "@ + bad,
            },
    {
        let pieces = split_text(s, '/');
        let ghost all = crate::text::split_on(s@, '/');
        let mut segments: Vec<PatternSegment> = Vec::new();
        let mut i: usize = 0;
        proof {
            assert(all.take(0) =~= Seq::empty());
            assert(segments@.map_values(|s: PatternSegment| segment_view(s)) =~= Seq::empty());
        }
        while i < pieces.len()
            invariant
                i <= pieces.len(),
                all == crate::text::texts(pieces@),
                all == crate::text::split_on(s@, '/'),
                pattern_of(all.take(i as int)) == Ok::<Seq<Option<Seq<char>>>, Seq<char>>(
                    segments@.map_values(|s: PatternSegment| segment_view(s)),
                ),
            decreases pieces.len() - i,
        {
            let piece = pieces[i].as_str();
            let ghost before = segments@.map_values(|s: PatternSegment| segment_view(s));
            proof {
                assert(all[i as int] == piece@);
                assert(all.take(i + 1).drop_last() =~= all.take(i as int));
                assert(all.take(i + 1).last() == piece@);
            }
            if is_empty_text(piece) {
            } else if same_text(piece, "*") {
                segments.push(PatternSegment::Wildcard);
                proof {
                    assert(segments@.map_values(|s: PatternSegment| segment_view(s))
                        =~= before.push(None));
                }
            } else if has_char(piece, '*') {
                proof {
                    lemma_pattern_error(all, i + 1);
                }
                return Err(
                    VfsError::InvalidPath(cat("partial wildcards not supported: ", piece)),
                );
            } else {
                segments.push(PatternSegment::Literal(owned(piece)));
                proof {
                    assert(segments@.map_values(|s: PatternSegment| segment_view(s))
                        =~= before.push(Some(piece@)));
                }
            }
            i = i + 1;
        }
        proof {
            assert(all.take(all.len() as int) =~= all);
        }
        Ok(PathPattern { segments })
    }

    /// The pattern that covers one path.
    pub fn exact(path: &VfsPath) -> (r: PathPattern)
        ensures
            r@ == exactly(path@),
    {
        let mut segments: Vec<PatternSegment> = Vec::new();
        let mut i: usize = 0;
        while i < path.depth()
            invariant
                i <= path@.len(),
                segments@.len() == i,
                forall|k: int|
                    0 <= k < i ==> segment_view(#[trigger] segments@[k]) == Some(path@[k]),
            decreases path@.len() - i,
        {
            segments.push(PatternSegment::Literal(owned(path.segment(i))));
            i = i + 1;
        }
        let r = PathPattern { segments };
        proof {
            assert(r@ =~= exactly(path@));
        }
        r
    }

    pub fn matches(&self, path: &VfsPath) -> (r: bool)
        ensures
            r == covers(self@, path@),
    {
        if path.depth() != self.segments.len() {
            return false;
        }
        let mut i: usize = 0;
        while i < self.segments.len()
            invariant
                i <= self.segments.len(),
                path@.len() == self.segments@.len(),
                self@ == self.segments@.map_values(|s: PatternSegment| segment_view(s)),
                forall|k: int| 0 <= k < i ==> segment_matches(#[trigger] self@[k], path@[k]),
            decreases self.segments.len() - i,
        {
            proof {
                assert(self@[i as int] == segment_view(self.segments@[i as int]));
            }
            let fits = match &self.segments[i] {
                PatternSegment::Literal(l) => same_text(l.as_str(), path.segment(i)),
                PatternSegment::Wildcard => true,
            };
            if !fits {
                return false;
            }
            i = i + 1;
        }
        true
    }

    /// How many segments stand for themselves.
    pub fn specificity(&self) -> (r: usize)
        ensures
            r == literals(self@),
    {
        let mut n: usize = 0;
        let mut i: usize = 0;
        let ghost all = self@;
        while i < self.segments.len()
            invariant
                i <= self.segments.len(),
                n <= i,
                all == self.segments@.map_values(|s: PatternSegment| segment_view(s)),
                n == literals(all.take(i as int)),
            decreases self.segments.len() - i,
        {
            proof {
                assert(all.take(i + 1).drop_last() =~= all.take(i as int));
                assert(all.take(i + 1).last() == segment_view(self.segments@[i as int]));
            }
            match &self.segments[i] {
                PatternSegment::Literal(_) => {
                    n = n + 1;
                },
                PatternSegment::Wildcard => {},
            }
            i = i + 1;
        }
        proof {
            assert(all.take(all.len() as int) =~= all);
        }
        n
    }
}

proof fn lemma_pattern_error(all: Seq<Seq<char>>, n: int)
    requires
        0 <= n <= all.len(),
        pattern_of(all.take(n)) is Err,
    ensures
        pattern_of(all) == pattern_of(all.take(n)),
    decreases all.len() - n,
{
    if n == all.len() {
        assert(all.take(n) =~= all);
    } else {
        assert(all.take(n + 1).drop_last() =~= all.take(n));
        lemma_pattern_error(all, n + 1);
    }
}

/// A pattern, the handler of the paths that it covers, and the label by which
/// the two are found again.
pub struct Route<H: View> {
    pub label: String,
    pub pattern: PathPattern,
    pub handler: H,
}

/// A route as it counts.
pub ghost struct RouteModel<V> {
    pub label: Seq<char>,
    pub pattern: Seq<Option<Seq<char>>>,
    pub handler: V,
}

impl<H: View> View for Route<H> {
    type V = RouteModel<H::V>;

    open spec fn view(&self) -> RouteModel<H::V> {
        RouteModel { label: self.label@, pattern: self.pattern@, handler: self.handler@ }
    }
}

/// The routes of a list.
pub open spec fn route_views<H: View>(v: Seq<Route<H>>) -> Seq<RouteModel<H::V>> {
    v.map_values(|r: Route<H>| r@)
}

/// The routes that are known, in the order in which they came.
pub struct WatchTable<H: View> {
    routes: Vec<Route<H>>,
}

impl<H: View> View for WatchTable<H> {
    type V = Seq<RouteModel<H::V>>;

    closed spec fn view(&self) -> Seq<RouteModel<H::V>> {
        route_views(self.routes@)
    }
}

/// The routes with another label.
pub open spec fn without_label<V>(routes: Seq<RouteModel<V>>, label: Seq<char>) -> Seq<
    RouteModel<V>,
> {
    routes.filter(|r: RouteModel<V>| r.label != label)
}

/// The routes whose label does not begin with the prefix.
pub open spec fn without_prefix<V>(routes: Seq<RouteModel<V>>, prefix: Seq<char>) -> Seq<
    RouteModel<V>,
> {
    routes.filter(|r: RouteModel<V>| !prefix.is_prefix_of(r.label))
}

/// The route for a path among the first `n`: the one with the most literal
/// segments of those that cover it, and the last of those that have as many.
pub open spec fn best_route<V>(routes: Seq<RouteModel<V>>, path: Seq<Seq<char>>, n: int) -> Option<
    int,
>
    decreases n,
{
    if n <= 0 {
        None
    } else {
        let before = best_route(routes, path, n - 1);
        if !covers(routes[n - 1].pattern, path) {
            before
        } else {
            match before {
                Some(i) => if literals(routes[i].pattern) > literals(routes[n - 1].pattern) {
                    before
                } else {
                    Some(n - 1)
                },
                None => Some(n - 1),
            }
        }
    }
}

/// The handler for a path.
pub open spec fn handler_for<V>(routes: Seq<RouteModel<V>>, path: Seq<Seq<char>>) -> Option<V> {
    match best_route(routes, path, routes.len() as int) {
        Some(i) => Some(routes[i].handler),
        None => None,
    }
}

/// No label occurs twice.
pub open spec fn labels_distinct<V>(routes: Seq<RouteModel<V>>) -> bool {
    forall|i: int, j: int|
        0 <= i < j < routes.len() ==> (#[trigger] routes[i]).label != (#[trigger] routes[j]).label
}

impl<H: View> WatchTable<H> {
    pub fn new() -> (r: WatchTable<H>)
        ensures
            r@.len() == 0,
    {
        WatchTable { routes: Vec::new() }
    }

    /// Adds a route, in place of the one with the same label.
    pub fn register(&mut self, label: String, pattern: PathPattern, handler: H)
        ensures
            final(self)@ == without_label(old(self)@, label@).push(
                RouteModel { label: label@, pattern: pattern@, handler: handler@ },
            ),
    {
        self.unregister(label.as_str());
        let ghost before = self@;
        self.routes.push(Route { label, pattern, handler });
        proof {
            assert(self@ =~= before.push(
                RouteModel { label: label@, pattern: pattern@, handler: handler@ },
            ));
        }
    }

    /// Drops the route with a label; says whether there was one.
    pub fn unregister(&mut self, label: &str) -> (r: bool)
        ensures
            final(self)@ == without_label(old(self)@, label@),
            r == (exists|i: int| 0 <= i < old(self)@.len() && (#[trigger] old(self)@[i]).label == label@),
    {
        let ghost all = self@;
        let ghost keep = |r: RouteModel<H::V>| r.label != label@;
        let mut seen: bool = false;
        let mut i: usize = 0;
        let ghost mut done: int = 0;
        proof {
            reveal(Seq::filter);
            assert(all.take(0).filter(keep) =~= Seq::empty());
            assert(route_views(self.routes@) =~= all.take(0).filter(keep) + all.skip(0));
        }
        while i < self.routes.len()
            invariant
                0 <= done <= all.len(),
                i == all.take(done).filter(keep).len(),
                keep == |r: RouteModel<H::V>| r.label != label@,
                route_views(self.routes@) == all.take(done).filter(keep) + all.skip(done),
                seen == (exists|k: int| 0 <= k < done && (#[trigger] all[k]).label == label@),
            decreases self.routes.len() - i,
        {
            let ghost was = route_views(self.routes@);
            let ghost kept = all.take(done).filter(keep);
            proof {
                assert(route_views(self.routes@).len() == self.routes@.len());
                assert(was[i as int] == all[done]);
                assert(was[i as int] == self.routes@[i as int]@);
                lemma_filter_step(all, keep, done);
            }
            if same_text(self.routes[i].label.as_str(), label) {
                let _dropped = self.routes.remove(i);
                seen = true;
                proof {
                    assert(all[done].label == label@);
                    assert(route_views(self.routes@) =~= was.remove(i as int));
                    assert(was.remove(i as int) =~= kept + all.skip(done + 1));
                }
            } else {
                proof {
                    assert(was =~= kept.push(all[done]) + all.skip(done + 1));
                }
                i = i + 1;
            }
            proof {
                done = done + 1;
            }
        }
        proof {
            assert(route_views(self.routes@).len() == self.routes@.len());
            assert(done == all.len());
            assert(all.take(all.len() as int) =~= all);
            assert(self@ =~= all.filter(keep));
        }
        seen
    }

    /// Drops every route whose label begins with the prefix; says how many
    /// there were.
    pub fn unregister_prefix(&mut self, prefix: &str) -> (r: usize)
        ensures
            final(self)@ == without_prefix(old(self)@, prefix@),
            r == old(self)@.len() - final(self)@.len(),
    {
        let ghost all = self@;
        let ghost keep = |r: RouteModel<H::V>| !prefix@.is_prefix_of(r.label);
        let before: usize = self.routes.len();
        let mut i: usize = 0;
        let ghost mut done: int = 0;
        proof {
            reveal(Seq::filter);
            assert(all.take(0).filter(keep) =~= Seq::empty());
            assert(route_views(self.routes@) =~= all.take(0).filter(keep) + all.skip(0));
        }
        while i < self.routes.len()
            invariant
                0 <= done <= all.len(),
                i == all.take(done).filter(keep).len(),
                i <= done,
                keep == |r: RouteModel<H::V>| !prefix@.is_prefix_of(r.label),
                route_views(self.routes@) == all.take(done).filter(keep) + all.skip(done),
            decreases self.routes.len() - i,
        {
            let ghost was = route_views(self.routes@);
            let ghost kept = all.take(done).filter(keep);
            proof {
                assert(route_views(self.routes@).len() == self.routes@.len());
                assert(was[i as int] == all[done]);
                assert(was[i as int] == self.routes@[i as int]@);
                lemma_filter_step(all, keep, done);
            }
            if begins_with(self.routes[i].label.as_str(), prefix) {
                let _dropped = self.routes.remove(i);
                proof {
                    assert(route_views(self.routes@) =~= was.remove(i as int));
                    assert(was.remove(i as int) =~= kept + all.skip(done + 1));
                }
            } else {
                proof {
                    assert(was =~= kept.push(all[done]) + all.skip(done + 1));
                }
                i = i + 1;
            }
            proof {
                done = done + 1;
            }
        }
        proof {
            assert(route_views(self.routes@).len() == self.routes@.len());
            assert(done == all.len());
            assert(all.take(all.len() as int) =~= all);
            assert(self@ =~= all.filter(keep));
        }
        before - self.routes.len()
    }

    /// The handler for a path: that of the route with the most literal
    /// segments, and of the last such route where there are several.
    pub fn match_path(&self, path: &VfsPath) -> (r: Option<&H>)
        ensures
            match handler_for(self@, path@) {
                Some(h) => r matches Some(got) && got@ == h,
                None => r is None,
            },
    {
        let ghost all = self@;
        let mut best: Option<usize> = None;
        let mut most: usize = 0;
        let mut i: usize = 0;
        while i < self.routes.len()
            invariant
                i <= self.routes.len(),
                all == route_views(self.routes@),
                match best {
                    Some(b) => b < i && best_route(all, path@, i as int) == Some(b as int) && most
                        == literals(all[b as int].pattern),
                    None => best_route(all, path@, i as int) is None,
                },
            decreases self.routes.len() - i,
        {
            proof {
                assert(all[i as int] == self.routes@[i as int]@);
            }
            if self.routes[i].pattern.matches(path) {
                let n: usize = self.routes[i].pattern.specificity();
                if best.is_none() || most <= n {
                    best = Some(i);
                    most = n;
                }
            }
            i = i + 1;
        }
        match best {
            Some(b) => {
                proof {
                    assert(all[b as int] == self.routes@[b as int]@);
                }
                Some(&self.routes[b].handler)
            },
            None => None,
        }
    }

    /// The labels, in the order of the routes.
    pub fn labels(&self) -> (r: Vec<String>)
        ensures
            crate::text::texts(r@) == self@.map_values(|r: RouteModel<H::V>| r.label),
    {
        let mut out: Vec<String> = Vec::new();
        let mut i: usize = 0;
        while i < self.routes.len()
            invariant
                i <= self.routes.len(),
                out@.len() == i,
                forall|k: int| 0 <= k < i ==> (#[trigger] out@[k])@ == self.routes@[k].label@,
            decreases self.routes.len() - i,
        {
            out.push(owned(self.routes[i].label.as_str()));
            i = i + 1;
        }
        proof {
            assert(crate::text::texts(out@) =~= self@.map_values(|r: RouteModel<H::V>| r.label));
        }
        out
    }
}

impl<H: View> Default for WatchTable<H> {
    fn default() -> (r: WatchTable<H>)
        ensures
            r@.len() == 0,
    {
        WatchTable::new()
    }
}

proof fn lemma_filter_step<T>(all: Seq<T>, keep: spec_fn(T) -> bool, n: int)
    requires
        0 <= n < all.len(),
    ensures
        all.take(n + 1).filter(keep) == (if keep(all[n]) {
            all.take(n).filter(keep).push(all[n])
        } else {
            all.take(n).filter(keep)
        }),
        all.take(n + 1).filter(keep).len() <= n + 1,
{
    reveal(Seq::filter);
    assert(all.take(n + 1).drop_last() =~= all.take(n));
    all.take(n + 1).lemma_filter_len(keep);
}

/// The route that is taken covers the path, and no route that covers it has
/// more literal segments; a path is left alone only where no route covers it.
pub proof fn lemma_most_specific_wins<V>(routes: Seq<RouteModel<V>>, path: Seq<Seq<char>>, n: int)
    requires
        0 <= n <= routes.len(),
    ensures
        match best_route(routes, path, n) {
            Some(i) => {
                &&& 0 <= i < n
                &&& covers(routes[i].pattern, path)
                &&& forall|j: int|
                    0 <= j < n && covers((#[trigger] routes[j]).pattern, path) ==> literals(
                        routes[j].pattern,
                    ) <= literals(routes[i].pattern) && (literals(routes[j].pattern) == literals(
                        routes[i].pattern,
                    ) ==> j <= i)
            },
            None => forall|j: int| 0 <= j < n ==> !covers((#[trigger] routes[j]).pattern, path),
        },
    decreases n,
{
    if n > 0 {
        lemma_most_specific_wins(routes, path, n - 1);
    }
}

/// The pattern of one path covers that path and no other.
pub proof fn lemma_exact_covers_one(path: Seq<Seq<char>>, other: Seq<Seq<char>>)
    ensures
        covers(exactly(path), other) == (path == other),
{
    if covers(exactly(path), other) {
        assert forall|i: int| 0 <= i < path.len() implies path[i] == other[i] by {
            assert(segment_matches(exactly(path)[i], other[i]));
        }
        assert(path =~= other);
    }
}

proof fn lemma_literals_bound(p: Seq<Option<Seq<char>>>)
    ensures
        literals(p) <= p.len(),
        (forall|i: int| 0 <= i < p.len() ==> (#[trigger] p[i]) is Some) ==> literals(p) == p.len(),
    decreases p.len(),
{
    if p.len() > 0 {
        lemma_literals_bound(p.drop_last());
        if forall|i: int| 0 <= i < p.len() ==> (#[trigger] p[i]) is Some {
            assert forall|i: int| 0 <= i < p.len() - 1 implies (#[trigger] p.drop_last()[i]) is Some by {
                assert(p[i] is Some);
            }
            assert(p[p.len() - 1] is Some);
        }
    }
}

/// A route for exactly one path goes before every pattern that covers the
/// path too.
pub proof fn lemma_exact_goes_first(path: Seq<Seq<char>>, p: Seq<Option<Seq<char>>>)
    requires
        covers(p, path),
    ensures
        literals(p) <= literals(exactly(path)),
{
    lemma_literals_bound(p);
    lemma_literals_bound(exactly(path));
    assert forall|i: int| 0 <= i < exactly(path).len() implies (#[trigger] exactly(
        path,
    )[i]) is Some by {}
}

/// A route for exactly one path that is added last is the one taken for that
/// path.
pub proof fn lemma_last_exact_is_taken<V>(
    routes: Seq<RouteModel<V>>,
    added: RouteModel<V>,
    path: Seq<Seq<char>>,
)
    requires
        added.pattern == exactly(path),
    ensures
        best_route(routes.push(added), path, routes.len() as int + 1) == Some(routes.len() as int),
{
    let all = routes.push(added);
    let n = routes.len() as int;
    lemma_most_specific_wins(all, path, n);
    lemma_exact_covers_one(path, path);
    assert(covers(all[n].pattern, path));
    if let Some(k) = best_route(all, path, n) {
        lemma_exact_goes_first(path, all[k].pattern);
    }
}

proof fn lemma_best_route_local<V>(
    a: Seq<RouteModel<V>>,
    b: Seq<RouteModel<V>>,
    path: Seq<Seq<char>>,
    n: int,
)
    requires
        n <= a.len(),
        n <= b.len(),
        forall|i: int| 0 <= i < n ==> a[i] == b[i],
    ensures
        best_route(a, path, n) == best_route(b, path, n),
    decreases n,
{
    if n > 0 {
        lemma_best_route_local(a, b, path, n - 1);
        lemma_most_specific_wins(a, path, n - 1);
    }
}

/// Dropping other routes leaves the route that is taken for a path the one
/// that is taken.
pub proof fn lemma_dropping_keeps_best<V>(
    routes: Seq<RouteModel<V>>,
    keep: spec_fn(RouteModel<V>) -> bool,
    path: Seq<Seq<char>>,
)
    requires
        best_route(routes, path, routes.len() as int) matches Some(k) && keep(routes[k]),
    ensures
        ({
            let rest = routes.filter(keep);
            let k = best_route(routes, path, routes.len() as int)->0;
            best_route(rest, path, rest.len() as int) matches Some(j) && 0 <= j < rest.len()
                && rest[j] == routes[k]
        }),
    decreases routes.len(),
{
    reveal(Seq::filter);
    let n = routes.len() as int;
    let less = routes.drop_last();
    let x = routes.last();
    let k = best_route(routes, path, n)->0;
    lemma_best_route_local(routes, less, path, n - 1);
    lemma_most_specific_wins(less, path, n - 1);
    let f0 = less.filter(keep);
    let rest = routes.filter(keep);
    if keep(x) {
        assert(rest =~= f0.push(x));
        lemma_best_route_local(rest, f0, path, f0.len() as int);
    }
    lemma_most_specific_wins(f0, path, f0.len() as int);
    if best_route(routes, path, n) == best_route(less, path, n - 1) {
        assert(less[k] == routes[k]);
        lemma_dropping_keeps_best(less, keep, path);
    } else {
        assert(k == n - 1);
        if let Some(j) = best_route(f0, path, f0.len() as int) {
            assert(f0.contains(f0[j]));
            less.lemma_filter_contains_rev(keep, f0[j]);
            let i = choose|i: int| 0 <= i < less.len() && less[i] == f0[j];
            assert(covers(less[i].pattern, path));
        }
    }
}

/// A new route that does not cover a path changes nothing for it.
pub proof fn lemma_pushing_keeps_best<V>(
    routes: Seq<RouteModel<V>>,
    added: RouteModel<V>,
    path: Seq<Seq<char>>,
)
    requires
        !covers(added.pattern, path),
    ensures
        best_route(routes.push(added), path, routes.len() as int + 1) == best_route(
            routes,
            path,
            routes.len() as int,
        ),
{
    lemma_best_route_local(routes.push(added), routes, path, routes.len() as int);
}

/// Registering keeps labels distinct, and so does dropping routes.
pub proof fn lemma_labels_stay_distinct<V>(
    routes: Seq<RouteModel<V>>,
    added: RouteModel<V>,
    prefix: Seq<char>,
)
    requires
        labels_distinct(routes),
    ensures
        labels_distinct(without_label(routes, added.label).push(added)),
        labels_distinct(without_label(routes, added.label)),
        labels_distinct(without_prefix(routes, prefix)),
{
    let keep = |r: RouteModel<V>| r.label != added.label;
    lemma_filter_distinct(routes, keep);
    lemma_filter_distinct(routes, |r: RouteModel<V>| !prefix.is_prefix_of(r.label));
    let rest = without_label(routes, added.label);
    assert forall|i: int| 0 <= i < rest.len() implies (#[trigger] rest[i]).label != added.label by {
        routes.lemma_filter_pred(keep, i);
    }
}

proof fn lemma_filter_distinct<V>(
    routes: Seq<RouteModel<V>>,
    keep: spec_fn(RouteModel<V>) -> bool,
)
    requires
        labels_distinct(routes),
    ensures
        labels_distinct(routes.filter(keep)),
    decreases routes.len(),
{
    reveal(Seq::filter);
    if routes.len() > 0 {
        let less = routes.drop_last();
        assert forall|i: int, j: int| 0 <= i < j < less.len() implies (#[trigger] less[i]).label
            != (#[trigger] less[j]).label by {
            assert(routes[i].label != routes[j].label);
        }
        lemma_filter_distinct(less, keep);
        let sub = less.filter(keep);
        assert forall|i: int| 0 <= i < sub.len() implies (#[trigger] sub[i]).label
            != routes.last().label by {
            less.lemma_filter_contains_rev(keep, sub[i]);
            let k = choose|k: int| 0 <= k < less.len() && less[k] == sub[i];
            assert(routes[k].label != routes[routes.len() - 1].label);
        }
    }
}

/// After registering, the label leads to what was registered and to nothing
/// else, and every other route is where it was.
pub proof fn lemma_register_replaces<V>(routes: Seq<RouteModel<V>>, added: RouteModel<V>, i: int)
    requires
        0 <= i < without_label(routes, added.label).push(added).len(),
    ensures
        ({
            let after = without_label(routes, added.label).push(added);
            if after[i].label == added.label {
                i == after.len() - 1 && after[i] == added
            } else {
                routes.contains(after[i])
            }
        }),
        forall|j: int|
            0 <= j < routes.len() && (#[trigger] routes[j]).label != added.label
                ==> without_label(routes, added.label).push(added).contains(routes[j]),
{
    let keep = |r: RouteModel<V>| r.label != added.label;
    let rest = routes.filter(keep);
    let after = rest.push(added);
    if i < rest.len() {
        routes.lemma_filter_pred(keep, i);
        assert(rest.contains(rest[i]));
        routes.lemma_filter_contains_rev(keep, rest[i]);
    }
    assert forall|j: int|
        0 <= j < routes.len() && (#[trigger] routes[j]).label
            != added.label implies after.contains(routes[j]) by {
        routes.lemma_filter_contains(keep, j);
        let k = choose|k: int| 0 <= k < rest.len() && rest[k] == routes[j];
        assert(after[k] == routes[j]);
    }
}

} // verus!
