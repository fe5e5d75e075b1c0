//! Configuration snapshots and the store that publishes them.
//!
//! A snapshot is built in one step from the text of a file: parse, validate,
//! compile. On any error nothing is produced and nothing changes. The store
//! holds the snapshot that requests are served with; a reload replaces it whole,
//! and requests in flight keep the one they loaded.
use crate::config::answers::{Answers, AnswersView};
use crate::config::ast::{ConfigError, ConfigErrorView, Layer4Listener, Layer4ListenerView};
use crate::config::compiled::{
    site_ports, topology_is_the_ports_of_the_sites, CompiledConfig, CompiledConfigView,
    CompiledSite,
};
use crate::config::expand::{Sources, SourcesView};
use crate::config::parser::{parse_with, parsed_with, ParseFailure, ParseFailureView};
use crate::config::validate::{
    address, compiled, failure, transport, validate_and_compile_with, CompileFailure,
    CompileFailureView,
};
use crate::text::owned;
use std::sync::Arc;
use vstd::prelude::*;

verus! {

/// The validated configuration that requests are served with.
pub type ConfigSnapshot = CompiledConfig;

/// The holder of the current snapshot, an `arc_swap::ArcSwap`.
///
/// The store is shared: any thread may replace the snapshot at any time. So no
/// contract says which of the stored snapshots a load gives.
#[verifier::external_body]
pub struct ConfigStore {
    current: arc_swap::ArcSwap<ConfigSnapshot>,
}

/// The snapshots that a store is given in the course of its life: the first one
/// and every one that is stored later, by whatever thread.
pub uninterp spec fn ever_stored(store: ConfigStore) -> Set<CompiledConfigView>;

impl ConfigStore {
    /// A store that holds `initial`.
    ///
    /// Calls `arc_swap::ArcSwapAny::from`, which keeps the given pointer: the
    /// snapshot is among those that the store is given.
    #[verifier::external_body]
    pub fn new(initial: ConfigSnapshot) -> (r: ConfigStore)
        ensures
            ever_stored(r).contains(initial.deep_view()),
    {
        ConfigStore { current: arc_swap::ArcSwap::from(Arc::new(initial)) }
    }

    /// Load the current snapshot.
    ///
    /// Calls `arc_swap::ArcSwapAny::load_full`, which gives the pointer that was
    /// stored last: a snapshot that the store was given. Which one is not said,
    /// since other threads store too.
    #[verifier::external_body]
    pub fn load(&self) -> (r: Arc<ConfigSnapshot>)
        ensures
            ever_stored(*self).contains((*r).deep_view()),
    {
        self.current.load_full()
    }

    /// Put a snapshot in the place of the current one.
    ///
    /// Calls `arc_swap::ArcSwapAny::store`, which keeps the given pointer, and
    /// hands the pointer back: its snapshot is among those that the store is
    /// given. Nothing is said of later loads, since other threads store too.
    #[verifier::external_body]
    fn publish(&self, snapshot: Arc<ConfigSnapshot>) -> (r: Arc<ConfigSnapshot>)
        ensures
            r == snapshot,
            ever_stored(*self).contains((*r).deep_view()),
    {
        self.current.store(snapshot.clone());
        snapshot
    }

    /// Replace the current snapshot at once.
    pub fn store(&self, snapshot: ConfigSnapshot)
        ensures
            ever_stored(*self).contains(snapshot.deep_view()),
    {
        let _ = self.publish(Arc::new(snapshot));
    }
}

/// Why a snapshot could not be built.
#[derive(PartialEq, Eq)]
pub enum BuildFailure {
    /// The file cannot be read, is not a configuration, or has no meaning.
    Config(ConfigError),
    /// An imported file has to be read first.
    NeedsImport { file: String, target: String },
    /// A certificate file has to be read first.
    NeedsCertificate { path: String },
    /// A private-key file has to be read first.
    NeedsKey { path: String },
    /// A host has to be looked up first.
    NeedsHost { host: String, port: u16 },
}

/// The model of [`BuildFailure`].
pub ghost enum BuildFailureView {
    Config(ConfigErrorView),
    NeedsImport { file: Seq<char>, target: Seq<char> },
    NeedsCertificate { path: Seq<char> },
    NeedsKey { path: Seq<char> },
    NeedsHost { host: Seq<char>, port: u16 },
}

impl DeepView for BuildFailure {
    type V = BuildFailureView;

    open spec fn deep_view(&self) -> BuildFailureView {
        match self {
            BuildFailure::Config(e) => BuildFailureView::Config(e.deep_view()),
            BuildFailure::NeedsImport { file, target } => BuildFailureView::NeedsImport {
                file: file@,
                target: target@,
            },
            BuildFailure::NeedsCertificate { path } => BuildFailureView::NeedsCertificate {
                path: path@,
            },
            BuildFailure::NeedsKey { path } => BuildFailureView::NeedsKey { path: path@ },
            BuildFailure::NeedsHost { host, port } => BuildFailureView::NeedsHost {
                host: host@,
                port: *port,
            },
        }
    }
}

/// A failure to compile as a failure to build.
pub open spec fn not_compiled(f: CompileFailureView) -> BuildFailureView {
    match f {
        CompileFailureView::Config(e) => BuildFailureView::Config(e),
        CompileFailureView::NeedsCertificate { path } => BuildFailureView::NeedsCertificate { path },
        CompileFailureView::NeedsKey { path } => BuildFailureView::NeedsKey { path },
        CompileFailureView::NeedsHost { host, port } => BuildFailureView::NeedsHost { host, port },
    }
}

/// The snapshot of a file: `read` is its text, or why it could not be read.
pub open spec fn built(
    file: Seq<char>,
    read: Result<Seq<char>, Seq<char>>,
    sources: SourcesView,
    answers: AnswersView,
) -> Result<CompiledConfigView, BuildFailureView> {
    match read {
        Err(source) => Err(BuildFailureView::Config(ConfigErrorView::Io { file, source })),
        Ok(input) => match parsed_with(file, input, sources) {
            Err(ParseFailureView::Config(e)) => Err(BuildFailureView::Config(e)),
            Err(ParseFailureView::NeedsImport { file: by, target }) => Err(
                BuildFailureView::NeedsImport { file: by, target },
            ),
            Ok(rf) => match compiled(answers, rf) {
                Ok(c) => Ok(c),
                Err(f) => Err(not_compiled(failure(file, f))),
            },
        },
    }
}

/// Build a snapshot from the text of a file: parse, validate, compile. `sources`
/// and `answers` hold what the environment, other files and the name service
/// say; when something is missing the caller is told what to get.
pub fn build(file: &str, read: Result<&str, &str>, sources: &Sources, answers: &Answers) -> (r:
    Result<ConfigSnapshot, BuildFailure>)
    requires
        read matches Ok(input) ==> input@.len() < u32::MAX,
    ensures
        match (
            r,
            built(
                file@,
                match read {
                    Ok(input) => Ok(input@),
                    Err(source) => Err(source@),
                },
                sources.deep_view(),
                answers.deep_view(),
            ),
        ) {
            (Ok(c), Ok(w)) => c.deep_view() == w,
            (Err(e), Err(f)) => e.deep_view() == f,
            _ => false,
        },
{
    let input = match read {
        Ok(input) => input,
        Err(source) => {
            return Err(
                BuildFailure::Config(
                    ConfigError::Io { file: owned(file), source: owned(source) },
                ),
            );
        },
    };
    let rf = match parse_with(file, input, sources) {
        Ok(rf) => rf,
        Err(ParseFailure::Config(e)) => {
            return Err(BuildFailure::Config(e));
        },
        Err(ParseFailure::NeedsImport { file: by, target }) => {
            return Err(BuildFailure::NeedsImport { file: by, target });
        },
    };
    match validate_and_compile_with(file, &rf, answers) {
        Ok(c) => Ok(c),
        Err(CompileFailure::Config(e)) => Err(BuildFailure::Config(e)),
        Err(CompileFailure::NeedsCertificate { path }) => Err(
            BuildFailure::NeedsCertificate { path },
        ),
        Err(CompileFailure::NeedsKey { path }) => Err(BuildFailure::NeedsKey { path }),
        Err(CompileFailure::NeedsHost { host, port }) => Err(BuildFailure::NeedsHost { host, port }),
    }
}

/// Whether two configurations are served on the same ports by their sites, and
/// bind the same layer-4 listeners in the same order. What is bound is fixed when
/// the process starts, so a reload that would change it is refused.
pub open spec fn same_listeners(a: CompiledConfigView, b: CompiledConfigView) -> bool {
    &&& site_ports(a.sites) == site_ports(b.sites)
    &&& a.layer4.len() == b.layer4.len()
    &&& forall|i: int|
        0 <= i < a.layer4.len() ==> same_bind(#[trigger] a.layer4[i], b.layer4[i])
}

/// Whether two listeners have one transport and one address.
pub open spec fn same_bind(a: Layer4ListenerView, b: Layer4ListenerView) -> bool {
    transport(a) == transport(b) && address(a) == address(b)
}

fn is_same_bind(a: &Layer4Listener, b: &Layer4Listener) -> (r: bool)
    ensures
        r == same_bind(a.deep_view(), b.deep_view()),
{
    match (a, b) {
        (Layer4Listener::Tcp(x), Layer4Listener::Tcp(y)) => x.listen == y.listen,
        (Layer4Listener::Udp(x), Layer4Listener::Udp(y)) => x.listen == y.listen,
        _ => false,
    }
}

fn has_port(sites: &Vec<CompiledSite>, port: u16) -> (r: bool)
    ensures
        r == site_ports(sites.deep_view()).contains(port),
{
    let ghost all = sites.deep_view();
    proof {
        topology_is_the_ports_of_the_sites(all, port);
    }
    let mut i: usize = 0;
    while i < sites.len()
        invariant
            i <= sites@.len(),
            all == sites.deep_view(),
            forall|j: int| 0 <= j < i ==> (#[trigger] all[j]).key.port() != port,
        decreases sites@.len() - i,
    {
        assert(all[i as int] == sites@[i as int].deep_view());
        if sites[i].key.port() == port {
            proof {
                topology_is_the_ports_of_the_sites(all, port);
                assert(all[i as int].key.port() == port);
            }
            return true;
        }
        i += 1;
    }
    false
}

fn ports_within(a: &Vec<CompiledSite>, b: &Vec<CompiledSite>) -> (r: bool)
    ensures
        r == site_ports(a.deep_view()).subset_of(site_ports(b.deep_view())),
{
    let ghost all = a.deep_view();
    let ghost other = site_ports(b.deep_view());
    let mut i: usize = 0;
    while i < a.len()
        invariant
            i <= a@.len(),
            all == a.deep_view(),
            other == site_ports(b.deep_view()),
            forall|j: int| 0 <= j < i ==> other.contains((#[trigger] all[j]).key.port()),
        decreases a@.len() - i,
    {
        assert(all[i as int] == a@[i as int].deep_view());
        let port = a[i].key.port();
        if !has_port(b, port) {
            proof {
                topology_is_the_ports_of_the_sites(all, port);
                assert(site_ports(all).contains(port));
            }
            return false;
        }
        i += 1;
    }
    proof {
        assert forall|port: u16| site_ports(all).contains(port) implies other.contains(port) by {
            topology_is_the_ports_of_the_sites(all, port);
        }
    }
    true
}

/// Whether a reload from `current` to `next` keeps what is bound.
pub fn keeps_listeners(current: &ConfigSnapshot, next: &ConfigSnapshot) -> (r: bool)
    ensures
        r == same_listeners(current.deep_view(), next.deep_view()),
{
    let ghost (a, b) = (current.deep_view(), next.deep_view());
    if !(ports_within(&current.sites, &next.sites) && ports_within(&next.sites, &current.sites)) {
        return false;
    }
    assert(site_ports(a.sites) =~= site_ports(b.sites));
    if current.layer4.len() != next.layer4.len() {
        return false;
    }
    let mut i: usize = 0;
    while i < current.layer4.len()
        invariant
            i <= current.layer4@.len(),
            current.layer4@.len() == next.layer4@.len(),
            a == current.deep_view(),
            b == next.deep_view(),
            site_ports(a.sites) == site_ports(b.sites),
            forall|j: int| 0 <= j < i ==> same_bind(#[trigger] a.layer4[j], b.layer4[j]),
        decreases current.layer4@.len() - i,
    {
        assert(a.layer4[i as int] == current.layer4@[i as int].deep_view());
        assert(b.layer4[i as int] == next.layer4@[i as int].deep_view());
        if !is_same_bind(&current.layer4[i], &next.layer4[i]) {
            return false;
        }
        i += 1;
    }
    true
}

/// Reload: build a snapshot and publish it. On any failure the store is not
/// touched, and goes on serving what it held.
pub fn reload(
    store: &ConfigStore,
    file: &str,
    read: Result<&str, &str>,
    sources: &Sources,
    answers: &Answers,
) -> (r: Result<(), BuildFailure>)
    requires
        read matches Ok(input) ==> input@.len() < u32::MAX,
    ensures
        match (
            r,
            built(
                file@,
                match read {
                    Ok(input) => Ok(input@),
                    Err(source) => Err(source@),
                },
                sources.deep_view(),
                answers.deep_view(),
            ),
        ) {
            (Ok(()), Ok(w)) => ever_stored(*store).contains(w),
            (Err(e), Err(f)) => e.deep_view() == f,
            _ => false,
        },
{
    match build(file, read, sources, answers) {
        Ok(snapshot) => {
            store.store(snapshot);
            Ok(())
        },
        Err(e) => Err(e),
    }
}

} // verus!
