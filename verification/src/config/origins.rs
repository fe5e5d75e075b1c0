//! Where the terminals of a compiled site come from.
use crate::config::answers::{AnswersView, FaultView};
use crate::config::ast::{DirectiveView, MatcherView, SiteView};
use crate::config::compiled::{ModifierView, TerminalKindView, TerminalView};
use crate::config::validate::{
    first_path, handle_from, handle_step, handle_terminals, scoped, site_compiled,
    site_from, site_step, start_of_handle, start_of_site, terminal_of, with_guards,
    HandleStateView, SiteStateView,
};
use vstd::prelude::*;

verus! {

/// Whether a directive answers requests.
pub open spec fn answers_requests(d: DirectiveView) -> bool {
    d is ReverseProxy || d is FileServer || d is Redir || d is Respond || d is Error
}

/// The directives inside a `handle` or `handle_path` block.
pub open spec fn inside(d: DirectiveView) -> Option<Seq<DirectiveView>> {
    match d {
        DirectiveView::Handle { directives, .. } => Some(directives),
        DirectiveView::HandlePath { directives, .. } => Some(directives),
        _ => None,
    }
}

/// The matchers of a `handle` or `handle_path` block; nothing else has any for
/// the directives inside it.
pub open spec fn block_matchers(d: DirectiveView) -> Seq<MatcherView> {
    match d {
        DirectiveView::Handle { matcher, .. } => matcher,
        DirectiveView::HandlePath { matcher, .. } => matcher,
        _ => Seq::empty(),
    }
}

/// The matchers that a directive has itself.
pub open spec fn own_matchers(d: DirectiveView) -> Seq<MatcherView> {
    match d {
        DirectiveView::ReverseProxy { matcher, .. } => matcher,
        DirectiveView::Respond { matcher, .. } => matcher,
        DirectiveView::Error { matcher, .. } => matcher,
        _ => Seq::empty(),
    }
}

/// A place in a site: the number of a directive, and that of a directive inside
/// its block, or -1 for the directive itself.
pub type Place = (int, int);

/// Whether a directive that answers requests stands at a place, which directive it
/// is, and the directives of its scope.
pub open spec fn stands_at(ds: Seq<DirectiveView>, at: Place) -> bool {
    &&& 0 <= at.0 < ds.len()
    &&& at.1 >= -1
    &&& at.1 >= 0 ==> inside(ds[at.0]) is Some && at.1 < inside(ds[at.0])->0.len()
    &&& answers_requests(directive_at(ds, at))
}

/// The directive at a place.
pub open spec fn directive_at(ds: Seq<DirectiveView>, at: Place) -> DirectiveView {
    if at.1 < 0 {
        ds[at.0]
    } else {
        (inside(ds[at.0])->0)[at.1]
    }
}

/// Whether one place comes before another in the file.
pub open spec fn earlier(a: Place, b: Place) -> bool {
    a.0 < b.0 || (a.0 == b.0 && a.1 < b.1)
}

/// Whether the `path` matcher numbered `i` is the first one among `matchers`.
pub open spec fn is_first_path(matchers: Seq<MatcherView>, i: int) -> bool {
    &&& 0 <= i < matchers.len()
    &&& matchers[i] is Path
    &&& forall|j: int| 0 <= j < i ==> !((#[trigger] matchers[j]) is Path)
}

/// Whether `prefix` is what has to be stripped from the path of a request to a
/// terminal that comes from the directive `d` or from inside it: in a
/// `handle_path` block the prefix of its first `path` matcher, if it has one, and
/// nothing elsewhere.
pub open spec fn strips(d: DirectiveView, prefix: Option<Seq<char>>) -> bool {
    if let DirectiveView::HandlePath { matcher, .. } = d {
        &&& forall|i: int| #[trigger]
            is_first_path(matcher, i) ==> prefix == Some(matcher[i]->Path_0)
        &&& prefix is Some ==> exists|i: int| #[trigger] is_first_path(matcher, i)
    } else {
        prefix is None
    }
}

/// Whether the `root` numbered `i` is the last one among directives.
pub open spec fn is_last_root(ds: Seq<DirectiveView>, i: int) -> bool {
    &&& 0 <= i < ds.len()
    &&& ds[i] is Root
    &&& forall|j: int| i < j < ds.len() ==> !((#[trigger] ds[j]) is Root)
}

/// Whether a terminal does with a request what a directive says, in the scope
/// whose directives are `scope`. What a proxy connects to is left aside.
pub open spec fn does_as_told(
    kind: TerminalKindView,
    d: DirectiveView,
    scope: Seq<DirectiveView>,
) -> bool {
    match d {
        DirectiveView::ReverseProxy { lb_policy, health_check, .. } => {
            &&& kind is ReverseProxy
            &&& kind->ReverseProxy_lb_policy == lb_policy
            &&& kind->ReverseProxy_health_check == health_check
        },
        DirectiveView::FileServer => {
            &&& kind is FileServer
            &&& exists|i: int| #[trigger] is_last_root(scope, i)
            &&& forall|i: int| #[trigger]
                is_last_root(scope, i) && scope[i]->Root_path.len() > 0
                    ==> kind->FileServer_root == scope[i]->Root_path
        },
        DirectiveView::Redir { code, .. } => kind is Redir && kind->Redir_code == code,
        DirectiveView::Respond { status, body, .. } => kind == (TerminalKindView::Respond {
            status,
            body,
        }),
        DirectiveView::Error { status, message, .. } => {
            &&& kind is Error
            &&& kind->Error_message == message
            &&& kind->Error_status == (if status is Some {
                status->0
            } else {
                500
            })
        },
        _ => false,
    }
}

/// Whether a terminal comes from the directive at a place: it has the matchers of
/// the block and then those of the directive, strips what the block strips, and
/// does what the directive says.
pub open spec fn comes_from(t: TerminalView, ds: Seq<DirectiveView>, at: Place) -> bool {
    let d = directive_at(ds, at);
    let scope = if at.1 < 0 {
        ds
    } else {
        inside(ds[at.0])->0
    };
    &&& t.matchers == block_matchers(ds[at.0]) + own_matchers(d)
    &&& strips(ds[at.0], t.strip_prefix)
    &&& does_as_told(t.kind, d, scope)
}

/// Whether a directive changes requests or responses on their way.
pub open spec fn changes_requests(d: DirectiveView) -> bool {
    d is HeaderUp || d is HeaderDown || d is Encode || d is Rewrite || d is RateLimit
}

/// Whether a modifier changes what a directive says.
pub open spec fn changes_as_told(m: ModifierView, d: DirectiveView) -> bool {
    match d {
        DirectiveView::HeaderUp { name, value } => m == (ModifierView::HeaderUp { name, value }),
        DirectiveView::HeaderDown { name, value } => m == (ModifierView::HeaderDown {
            name,
            value,
        }),
        DirectiveView::Encode { algorithms } => m == (ModifierView::Encode { algorithms }),
        DirectiveView::Rewrite { to } => m == (ModifierView::Rewrite { to }),
        DirectiveView::RateLimit { spec } => m == (ModifierView::RateLimit { spec }),
        _ => false,
    }
}

/// Whether `modifiers` are those of a scope: first one for each directive that
/// changes requests, in the order of the file, then one with all users of its
/// `basic_auth` lines, if there is one, and last the target of its last
/// `forward_auth`, if there is one.
pub open spec fn modifiers_of_scope(
    ds: Seq<DirectiveView>,
    modifiers: Seq<ModifierView>,
) -> bool {
    let changes = ds.filter(|d: DirectiveView| changes_requests(d));
    let users = ds.filter(|d: DirectiveView| d is BasicAuth);
    let forwards = ds.filter(|d: DirectiveView| d is ForwardAuth);
    let n = changes.len() as int;
    let guards: int = if users.len() > 0 {
        1
    } else {
        0
    };
    &&& modifiers.len() == n + guards + (if forwards.len() > 0 {
        1int
    } else {
        0
    })
    &&& forall|k: int| 0 <= k < n ==> changes_as_told(#[trigger] modifiers[k], changes[k])
    &&& users.len() > 0 ==> modifiers[n] is BasicAuth && modifiers[n]->BasicAuth_users.len()
        == users.len() && forall|k: int|
        0 <= k < users.len() ==> (#[trigger] modifiers[n]->BasicAuth_users[k]) == (
            users[k]->BasicAuth_user,
            users[k]->BasicAuth_hash,
        )
    &&& forwards.len() > 0 ==> modifiers[n + guards] == (ModifierView::ForwardAuth {
        target: forwards.last()->ForwardAuth_target,
    })
}

/// Whether a terminal at a place has the modifiers of its site, and behind them
/// those of its block, if it stands in one.
pub open spec fn modified(
    t: TerminalView,
    site: Seq<ModifierView>,
    ds: Seq<DirectiveView>,
    at: Place,
) -> bool {
    &&& site.is_prefix_of(t.modifiers)
    &&& at.1 < 0 ==> t.modifiers == site
    &&& at.1 >= 0 ==> modifiers_of_scope(inside(ds[at.0])->0, t.modifiers.skip(site.len() as int))
}

/// Whether `places` are the places of all directives that answer requests, in the
/// order of the file.
pub open spec fn all_places(ds: Seq<DirectiveView>, places: Seq<Place>) -> bool {
    &&& forall|k: int| 0 <= k < places.len() ==> stands_at(ds, #[trigger] places[k])
    &&& forall|a: int, b: int|
        0 <= a < b < places.len() ==> earlier(#[trigger] places[a], #[trigger] places[b])
    &&& forall|at: Place| #[trigger] stands_at(ds, at) ==> places.contains(at)
}

/// Every terminal of a compiled site comes from one directive that answers
/// requests, in the site or in a `handle` or `handle_path` block, and every such
/// directive gives one, in the order of the file. In particular a terminal from
/// inside a `handle_path` block strips the prefix of the first `path` matcher of
/// that block, and no other terminal strips anything. A terminal has the modifiers
/// of the site and then those of its block.
pub proof fn terminals_come_from_directives(answers: AnswersView, site: SiteView) -> (places: Seq<
    Place,
>)
    ensures
        site_compiled(answers, site) matches Ok(compiled) ==> {
            &&& all_places(site.directives, places)
            &&& places.len() == compiled.terminals.len()
            &&& forall|k: int|
                0 <= k < places.len() ==> comes_from(
                    #[trigger] compiled.terminals[k],
                    site.directives,
                    places[k],
                )
            &&& modifiers_of_scope(site.directives, compiled.modifiers)
            &&& forall|k: int|
                0 <= k < places.len() ==> modified(
                    #[trigger] compiled.terminals[k],
                    compiled.modifiers,
                    site.directives,
                    places[k],
                )
        },
{
    let ds = site.directives;
    assert(ds.take(0).len() == 0);
    lemma_no_guards(ds.take(0));
    let places = lemma_site_from(answers, ds, 0, start_of_site(), Seq::empty());
    if let Ok(compiled) = site_compiled(answers, site) {
        let s = site_from(answers, ds, 0, start_of_site())->Ok_0;
        assert(ds.take(ds.len() as int) == ds);
        assert forall|k: int| 0 <= k < places.len() implies comes_from(
            #[trigger] compiled.terminals[k],
            ds,
            places[k],
        ) by {
            let t = s.terminals[k];
            assert(made_in_site(answers, t, ds, places[k]));
            assert(compiled.terminals[k].matchers == t.matchers);
        }
        let all = with_guards(s.modifiers, s.users, s.forward);
        lemma_with_guards(ds, s.modifiers, s.users, s.forward);
        assert(compiled.modifiers == all);
        assert forall|k: int| 0 <= k < places.len() implies modified(
            #[trigger] compiled.terminals[k],
            compiled.modifiers,
            ds,
            places[k],
        ) by {
            let t = s.terminals[k];
            assert(made_in_site(answers, t, ds, places[k]));
            let m = compiled.terminals[k].modifiers;
            assert(m == all + t.modifiers + Seq::<ModifierView>::empty());
            assert(m.skip(all.len() as int) == t.modifiers);
            if places[k].1 < 0 {
                assert(t.modifiers == Seq::<ModifierView>::empty());
                assert(m == all);
            }
        }
    }
    places
}

/// What the directives so far say about modifiers and guards.
spec fn guards_so_far(
    ds: Seq<DirectiveView>,
    modifiers: Seq<ModifierView>,
    users: Seq<(Seq<char>, Seq<char>)>,
    forward: Option<Seq<char>>,
) -> bool {
    let changes = ds.filter(|d: DirectiveView| changes_requests(d));
    let names = ds.filter(|d: DirectiveView| d is BasicAuth);
    let forwards = ds.filter(|d: DirectiveView| d is ForwardAuth);
    &&& modifiers.len() == changes.len()
    &&& forall|k: int|
        0 <= k < changes.len() ==> changes_as_told(#[trigger] modifiers[k], changes[k])
    &&& users.len() == names.len()
    &&& forall|k: int|
        0 <= k < names.len() ==> (#[trigger] users[k]) == (
            names[k]->BasicAuth_user,
            names[k]->BasicAuth_hash,
        )
    &&& forward == (if forwards.len() > 0 {
        Some(forwards.last()->ForwardAuth_target)
    } else {
        None
    })
}

proof fn lemma_no_guards(ds: Seq<DirectiveView>)
    requires
        ds.len() == 0,
    ensures
        guards_so_far(ds, Seq::empty(), Seq::empty(), None),
{
    reveal(Seq::filter);
}

/// One more directive.
proof fn lemma_guards(
    ds: Seq<DirectiveView>,
    i: int,
    modifiers: Seq<ModifierView>,
    users: Seq<(Seq<char>, Seq<char>)>,
    forward: Option<Seq<char>>,
    m: ModifierView,
)
    requires
        0 <= i < ds.len(),
        guards_so_far(ds.take(i), modifiers, users, forward),
        changes_requests(ds[i]) ==> changes_as_told(m, ds[i]),
    ensures
        guards_so_far(
            ds.take(i + 1),
            if changes_requests(ds[i]) {
                modifiers.push(m)
            } else {
                modifiers
            },
            if let DirectiveView::BasicAuth { user, hash } = ds[i] {
                users.push((user, hash))
            } else {
                users
            },
            if let DirectiveView::ForwardAuth { target } = ds[i] {
                Some(target)
            } else {
                forward
            },
        ),
{
    reveal(Seq::filter);
    let next = ds.take(i + 1);
    assert(next.drop_last() == ds.take(i));
    assert(next.last() == ds[i]);
}

proof fn lemma_with_guards(
    ds: Seq<DirectiveView>,
    modifiers: Seq<ModifierView>,
    users: Seq<(Seq<char>, Seq<char>)>,
    forward: Option<Seq<char>>,
)
    requires
        guards_so_far(ds, modifiers, users, forward),
    ensures
        modifiers_of_scope(ds, with_guards(modifiers, users, forward)),
{
    let all = with_guards(modifiers, users, forward);
    assert forall|k: int| 0 <= k < modifiers.len() implies all[k] == modifiers[k] by {}
}

// ---------------------------------------------------------------------------
// Blocks
// ---------------------------------------------------------------------------

/// Whether `root` is what the directives say last about the root.
spec fn root_is(ds: Seq<DirectiveView>, root: Option<Seq<char>>) -> bool {
    &&& forall|r: int| #[trigger] is_last_root(ds, r) ==> root == Some(ds[r]->Root_path)
    &&& root is Some ==> exists|r: int| #[trigger] is_last_root(ds, r)
}

proof fn lemma_root(ds: Seq<DirectiveView>, i: int, root: Option<Seq<char>>)
    requires
        0 <= i < ds.len(),
        root_is(ds.take(i), root),
    ensures
        ds[i] is Root ==> root_is(ds.take(i + 1), Some(ds[i]->Root_path)),
        !(ds[i] is Root) ==> root_is(ds.take(i + 1), root),
{
    let a = ds.take(i);
    let b = ds.take(i + 1);
    assert(b[i] == ds[i]);
    assert forall|r: int| 0 <= r < i implies b[r] == a[r] by {}
    if ds[i] is Root {
        assert(is_last_root(b, i));
        assert forall|r: int| #[trigger] is_last_root(b, r) implies r == i by {
            if r < i {
                assert(b[i] is Root);
            }
        }
    } else {
        assert forall|r: int| #[trigger] is_last_root(b, r) implies is_last_root(a, r) by {
            assert forall|j: int| r < j < a.len() implies !((#[trigger] a[j]) is Root) by {
                assert(b[j] == a[j]);
            }
        }
        if root is Some {
            let r = choose|r: int| #[trigger] is_last_root(a, r);
            assert forall|j: int| r < j < b.len() implies !((#[trigger] b[j]) is Root) by {
                if j < i {
                    assert(b[j] == a[j]);
                }
            }
            assert(is_last_root(b, r));
        }
    }
}

/// What the first `i` directives of a block have given: a terminal for each that
/// answers requests.
spec fn block_so_far(
    answers: AnswersView,
    outer: Seq<MatcherView>,
    prefix: Option<Seq<char>>,
    ds: Seq<DirectiveView>,
    i: int,
    s: HandleStateView,
    ms: Seq<int>,
) -> bool {
    &&& ms.len() == s.terminals.len()
    &&& forall|k: int|
        0 <= k < ms.len() ==> 0 <= #[trigger] ms[k] < i && answers_requests(ds[ms[k]])
            && terminal_of(answers, outer, prefix, ds[ms[k]]) == Some(
            Ok::<TerminalView, FaultView>(s.terminals[k]),
        )
    &&& forall|a: int, b: int| 0 <= a < b < ms.len() ==> #[trigger] ms[a] < #[trigger] ms[b]
    &&& forall|m: int|
        0 <= m < i && answers_requests(#[trigger] ds[m]) ==> ms.contains(m)
    &&& root_is(ds.take(i), s.root)
    &&& guards_so_far(ds.take(i), s.modifiers, s.users, s.forward)
}

proof fn lemma_block_from(
    answers: AnswersView,
    outer: Seq<MatcherView>,
    prefix: Option<Seq<char>>,
    ds: Seq<DirectiveView>,
    i: int,
    s: HandleStateView,
    ms: Seq<int>,
) -> (out: Seq<int>)
    requires
        0 <= i <= ds.len(),
        block_so_far(answers, outer, prefix, ds, i, s, ms),
    ensures
        handle_from(answers, outer, prefix, ds, i, s) matches Ok(t) ==> block_so_far(
            answers,
            outer,
            prefix,
            ds,
            ds.len() as int,
            t,
            out,
        ),
    decreases ds.len() - i,
{
    if i == ds.len() {
        ms
    } else {
        lemma_root(ds, i, s.root);
        let d = ds[i];
        match handle_step(answers, outer, prefix, s, d) {
            Err(_) => ms,
            Ok(t) => {
                lemma_guards(ds, i, s.modifiers, s.users, s.forward, t.modifiers.last());
                let next = if answers_requests(d) {
                    ms.push(i)
                } else {
                    ms
                };
                assert forall|m: int| 0 <= m < i + 1 && answers_requests(
                    #[trigger] ds[m],
                ) implies next.contains(m) by {
                    if m < i {
                        let k = choose|k: int| 0 <= k < ms.len() && ms[k] == m;
                        assert(next[k] == m);
                    } else {
                        assert(next[ms.len() as int] == i);
                    }
                }
                lemma_block_from(answers, outer, prefix, ds, i + 1, t, next)
            },
        }
    }
}

/// The first `path` matcher, found by looking at each in turn.
proof fn lemma_first_path(matchers: Seq<MatcherView>, i: int)
    requires
        0 <= i <= matchers.len(),
        forall|j: int| 0 <= j < i ==> !((#[trigger] matchers[j]) is Path),
    ensures
        forall|k: int| #[trigger]
            is_first_path(matchers, k) ==> first_path(matchers, i) == Some(matchers[k]->Path_0),
        first_path(matchers, i) is Some ==> exists|k: int| #[trigger] is_first_path(matchers, k),
    decreases matchers.len() - i,
{
    if i < matchers.len() {
        if matchers[i] is Path {
            assert(is_first_path(matchers, i));
            assert forall|k: int| #[trigger] is_first_path(matchers, k) implies k == i by {
                if k > i {
                    assert(matchers[i] is Path);
                }
            }
        } else {
            lemma_first_path(matchers, i + 1);
        }
    }
}

/// Whether `ms` are the numbers of all directives that answer requests, in order.
spec fn all_numbers(ds: Seq<DirectiveView>, ms: Seq<int>) -> bool {
    &&& forall|k: int|
        0 <= k < ms.len() ==> 0 <= #[trigger] ms[k] < ds.len() && answers_requests(ds[ms[k]])
    &&& forall|a: int, b: int| 0 <= a < b < ms.len() ==> #[trigger] ms[a] < #[trigger] ms[b]
    &&& forall|m: int|
        0 <= m < ds.len() && answers_requests(#[trigger] ds[m]) ==> ms.contains(m)
}

/// The terminals of one block of a site.
proof fn lemma_block(answers: AnswersView, site: Seq<DirectiveView>, j: int, strip: bool) -> (ms:
    Seq<int>)
    requires
        0 <= j < site.len(),
        site[j] is Handle && !strip || site[j] is HandlePath && strip,
    ensures
        handle_terminals(answers, block_matchers(site[j]), strip, inside(site[j])->0) matches Ok(
            ts,
        ) ==> {
            &&& all_numbers(inside(site[j])->0, ms)
            &&& ms.len() == ts.len()
            &&& forall|k: int|
                0 <= k < ms.len() ==> comes_from(#[trigger] ts[k], site, (j, ms[k]))
                    && modifiers_of_scope(inside(site[j])->0, ts[k].modifiers)
        },
{
    let outer = block_matchers(site[j]);
    let ds = inside(site[j])->0;
    let prefix = if strip {
        first_path(outer, 0)
    } else {
        None
    };
    assert(ds.take(0).len() == 0);
    lemma_no_guards(ds.take(0));
    let ms = lemma_block_from(answers, outer, prefix, ds, 0, start_of_handle(), Seq::empty());
    lemma_first_path(outer, 0);
    if let Ok(ts) = handle_terminals(answers, outer, strip, ds) {
        let s = handle_from(answers, outer, prefix, ds, 0, start_of_handle())->Ok_0;
        assert(ds.take(ds.len() as int) == ds);
        let after = with_guards(s.modifiers, s.users, s.forward);
        assert(scoped(s.terminals, Seq::empty(), after, s.root) == Ok::<
            Seq<TerminalView>,
            FaultView,
        >(ts));
        lemma_with_guards(ds, s.modifiers, s.users, s.forward);
        assert forall|k: int| 0 <= k < ms.len() implies comes_from(
            #[trigger] ts[k],
            site,
            (j, ms[k]),
        ) && modifiers_of_scope(ds, ts[k].modifiers) by {
            let t = s.terminals[k];
            assert(t.modifiers == Seq::<ModifierView>::empty());
            assert(ts[k].modifiers == Seq::<ModifierView>::empty() + t.modifiers + after);
            assert(ts[k].modifiers == after);
            let d = ds[ms[k]];
            assert(terminal_of(answers, outer, prefix, d) == Some(
                Ok::<TerminalView, FaultView>(t),
            ));
            assert(directive_at(site, (j, ms[k])) == d);
            assert(ts[k].matchers == t.matchers);
            assert(t.matchers == outer + own_matchers(d));
            assert(strips(site[j], t.strip_prefix));
            if d is FileServer {
                assert(crate::config::validate::rootless(t));
                assert(s.root is Some);
            }
        }
    }
    ms
}

// ---------------------------------------------------------------------------
// Sites
// ---------------------------------------------------------------------------

/// Whether a terminal was made from the directive at a place, before the scope of
/// the site is laid round it.
spec fn made_in_site(
    answers: AnswersView,
    t: TerminalView,
    ds: Seq<DirectiveView>,
    at: Place,
) -> bool {
    if at.1 < 0 {
        terminal_of(answers, Seq::empty(), None, ds[at.0]) == Some(
            Ok::<TerminalView, FaultView>(t),
        )
    } else {
        comes_from(t, ds, at) && modifiers_of_scope(inside(ds[at.0])->0, t.modifiers)
    }
}

/// What the first `i` directives of a site have given.
spec fn site_so_far(
    answers: AnswersView,
    ds: Seq<DirectiveView>,
    i: int,
    s: SiteStateView,
    places: Seq<Place>,
) -> bool {
    &&& places.len() == s.terminals.len()
    &&& forall|k: int|
        0 <= k < places.len() ==> stands_at(ds, #[trigger] places[k]) && places[k].0 < i
            && made_in_site(answers, s.terminals[k], ds, places[k])
    &&& forall|a: int, b: int|
        0 <= a < b < places.len() ==> earlier(#[trigger] places[a], #[trigger] places[b])
    &&& forall|at: Place| #[trigger] stands_at(ds, at) && at.0 < i ==> places.contains(at)
    &&& root_is(ds.take(i), s.root)
    &&& guards_so_far(ds.take(i), s.modifiers, s.users, s.forward)
}

/// The places inside one block.
spec fn places_in(j: int, ms: Seq<int>) -> Seq<Place> {
    Seq::new(ms.len(), |k: int| (j, ms[k]))
}

proof fn lemma_site_from(
    answers: AnswersView,
    ds: Seq<DirectiveView>,
    i: int,
    s: SiteStateView,
    places: Seq<Place>,
) -> (out: Seq<Place>)
    requires
        0 <= i <= ds.len(),
        site_so_far(answers, ds, i, s, places),
    ensures
        site_from(answers, ds, i, s) matches Ok(t) ==> site_so_far(
            answers,
            ds,
            ds.len() as int,
            t,
            out,
        ),
    decreases ds.len() - i,
{
    if i == ds.len() {
        places
    } else {
        match site_step(answers, s, ds[i]) {
            Err(_) => places,
            Ok(t) => {
                let next = lemma_site_step(answers, ds, i, s, places);
                lemma_site_from(answers, ds, i + 1, t, next)
            },
        }
    }
}

proof fn lemma_site_step(
    answers: AnswersView,
    ds: Seq<DirectiveView>,
    i: int,
    s: SiteStateView,
    places: Seq<Place>,
) -> (next: Seq<Place>)
    requires
        0 <= i < ds.len(),
        site_so_far(answers, ds, i, s, places),
        site_step(answers, s, ds[i]) is Ok,
    ensures
        site_so_far(answers, ds, i + 1, site_step(answers, s, ds[i])->Ok_0, next),
{
    lemma_root(ds, i, s.root);
    let d = ds[i];
    let t = site_step(answers, s, d)->Ok_0;
    lemma_guards(ds, i, s.modifiers, s.users, s.forward, t.modifiers.last());
    if answers_requests(d) {
        let next = places.push((i, -1));
        lemma_complete(ds, i, places, seq![(i, -1int)]);
        assert(next == places + seq![(i, -1int)]);
        next
    } else if inside(d) is Some {
        let strip = d is HandlePath;
        let ms = lemma_block(answers, ds, i, strip);
        let inner = inside(d)->0;
        let ts = handle_terminals(answers, block_matchers(d), strip, inner)->Ok_0;
        assert(t.terminals == s.terminals + ts);
        let more = places_in(i, ms);
        let next = places + more;
        lemma_complete(ds, i, places, more);
        assert forall|k: int| 0 <= k < next.len() implies stands_at(ds, #[trigger] next[k])
            && next[k].0 < i + 1 && made_in_site(answers, t.terminals[k], ds, next[k]) by {
            if k >= places.len() {
                let m = k - places.len();
                assert(next[k] == (i, ms[m]));
                assert(comes_from(ts[m], ds, (i, ms[m])));
            } else {
                assert(next[k] == places[k]);
            }
        }
        next
    } else {
        lemma_complete(ds, i, places, Seq::empty());
        assert(places + Seq::<Place>::empty() == places);
        places
    }
}

/// Adding the places of one more directive keeps the list complete and in order.
proof fn lemma_complete(
    ds: Seq<DirectiveView>,
    i: int,
    places: Seq<Place>,
    more: Seq<Place>,
)
    requires
        0 <= i < ds.len(),
        forall|k: int| 0 <= k < places.len() ==> (#[trigger] places[k]).0 < i,
        forall|a: int, b: int|
            0 <= a < b < places.len() ==> earlier(#[trigger] places[a], #[trigger] places[b]),
        forall|at: Place| #[trigger] stands_at(ds, at) && at.0 < i ==> places.contains(at),
        forall|k: int| 0 <= k < more.len() ==> (#[trigger] more[k]).0 == i,
        if answers_requests(ds[i]) {
            more == seq![(i, -1int)]
        } else if inside(ds[i]) is Some {
            exists|ms: Seq<int>| #[trigger]
                all_numbers(inside(ds[i])->0, ms) && more == places_in(i, ms)
        } else {
            more.len() == 0
        },
    ensures
        forall|a: int, b: int|
            0 <= a < b < (places + more).len() ==> earlier(
                #[trigger] (places + more)[a],
                #[trigger] (places + more)[b],
            ),
        forall|at: Place| #[trigger]
            stands_at(ds, at) && at.0 < i + 1 ==> (places + more).contains(at),
{
    let next = places + more;
    assert forall|at: Place| #[trigger] stands_at(ds, at) && at.0 < i + 1 implies next.contains(
        at,
    ) by {
        if at.0 < i {
            let k = choose|k: int| 0 <= k < places.len() && places[k] == at;
            assert(next[k] == at);
        } else if answers_requests(ds[i]) {
            assert(inside(ds[i]) is None);
            assert(at == (i, -1int));
            assert(next[places.len() as int] == more[0]);
        } else {
            let ms = choose|ms: Seq<int>| #[trigger]
                all_numbers(inside(ds[i])->0, ms) && more == places_in(i, ms);
            assert(answers_requests((inside(ds[i])->0)[at.1]));
            let k = choose|k: int| 0 <= k < ms.len() && ms[k] == at.1;
            assert(more[k] == at);
            assert(next[places.len() + k] == more[k]);
        }
    }
    assert forall|a: int, b: int| 0 <= a < b < next.len() implies earlier(
        #[trigger] next[a],
        #[trigger] next[b],
    ) by {
        if b < places.len() {
            assert(next[a] == places[a] && next[b] == places[b]);
        } else if a < places.len() {
            assert(next[a] == places[a] && next[b] == more[b - places.len()]);
        } else {
            assert(next[a] == more[a - places.len()] && next[b] == more[b - places.len()]);
            let ms = choose|ms: Seq<int>| #[trigger]
                all_numbers(inside(ds[i])->0, ms) && more == places_in(i, ms);
            assert(ms[a - places.len()] < ms[b - places.len()]);
        }
    }
}

// ---------------------------------------------------------------------------
// Settings
// ---------------------------------------------------------------------------

/// Whether the `trusted_proxies` numbered `i` is the last one among directives.
pub open spec fn is_last_trusted(ds: Seq<DirectiveView>, i: int) -> bool {
    &&& 0 <= i < ds.len()
    &&& ds[i] is TrustedProxies
    &&& forall|j: int| i < j < ds.len() ==> !((#[trigger] ds[j]) is TrustedProxies)
}

/// The settings of a site are those of its directives: it trusts the proxies of its
/// last `trusted_proxies` line, has no access log when a line switches it off, and
/// has TLS settings when a line gives some.
pub proof fn settings_come_from_directives(answers: AnswersView, site: SiteView)
    ensures
        site_compiled(answers, site) matches Ok(compiled) ==> {
            let ds = site.directives;
            &&& compiled.key == site.key
            &&& forall|i: int| #[trigger]
                is_last_trusted(ds, i) ==> compiled.trusted_proxies == Some(
                    ds[i]->TrustedProxies_networks,
                )
            &&& compiled.trusted_proxies is Some ==> exists|i: int|
                0 <= i < ds.len() && (#[trigger] ds[i]) is TrustedProxies
            &&& compiled.access_log_off <==> exists|i: int|
                0 <= i < ds.len() && (#[trigger] ds[i]) is AccessLogOff
            &&& compiled.tls is Some <==> exists|i: int|
                0 <= i < ds.len() && (#[trigger] ds[i]) is Tls
        },
{
    lemma_settings(answers, site.directives, 0, start_of_site());
}

/// What the first `i` directives have set.
spec fn set_so_far(ds: Seq<DirectiveView>, n: int, s: SiteStateView) -> bool {
    &&& forall|i: int|
        0 <= i < n && (#[trigger] ds[i]) is TrustedProxies && (forall|j: int|
            i < j < n ==> !((#[trigger] ds[j]) is TrustedProxies)) ==> s.trusted == Some(
            ds[i]->TrustedProxies_networks,
        )
    &&& s.trusted is Some ==> exists|i: int| 0 <= i < n && (#[trigger] ds[i]) is TrustedProxies
    &&& s.log_off <==> exists|i: int| 0 <= i < n && (#[trigger] ds[i]) is AccessLogOff
    &&& s.tls is Some <==> exists|i: int| 0 <= i < n && (#[trigger] ds[i]) is Tls
}

proof fn lemma_settings(answers: AnswersView, ds: Seq<DirectiveView>, i: int, s: SiteStateView)
    requires
        0 <= i <= ds.len(),
        set_so_far(ds, i, s),
    ensures
        site_from(answers, ds, i, s) matches Ok(t) ==> set_so_far(ds, ds.len() as int, t),
    decreases ds.len() - i,
{
    if i < ds.len() {
        if let Ok(t) = site_step(answers, s, ds[i]) {
            lemma_one_setting(answers, ds, i, s, t);
            lemma_settings(answers, ds, i + 1, t);
        }
    }
}

proof fn lemma_one_setting(
    answers: AnswersView,
    ds: Seq<DirectiveView>,
    i: int,
    s: SiteStateView,
    t: SiteStateView,
)
    requires
        0 <= i < ds.len(),
        set_so_far(ds, i, s),
        site_step(answers, s, ds[i]) == Ok::<SiteStateView, FaultView>(t),
    ensures
        set_so_far(ds, i + 1, t),
{
    let d = ds[i];
    assert(t.log_off == (s.log_off || d is AccessLogOff));
    assert(t.tls is Some == (s.tls is Some || d is Tls));
    assert(t.trusted == (if d is TrustedProxies {
        Some(d->TrustedProxies_networks)
    } else {
        s.trusted
    }));
    assert forall|k: int|
        0 <= k < i + 1 && (#[trigger] ds[k]) is TrustedProxies && (forall|j: int|
            k < j < i + 1 ==> !((#[trigger] ds[j]) is TrustedProxies)) implies t.trusted == Some(
        ds[k]->TrustedProxies_networks,
    ) by {
        if k < i {
            assert(!(ds[i] is TrustedProxies));
        }
    }
}

} // verus!
