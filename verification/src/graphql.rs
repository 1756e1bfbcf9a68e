//! The life cycle of the GraphQL server. Its schema follows the models that are registered, so
//! the server is built anew, and the proxy pointed at the new one, each time a model is.
use vstd::prelude::*;

verus! {

/// What is to be done next. `A` is the address of a server.
#[derive(Clone, Copy, Debug, PartialEq, Eq)]
pub enum Step<A> {
    /// Subscribe to the models that the broker tells of.
    Subscribe,
    /// Build a server.
    Build,
    /// Let the server with this address run.
    Spawn { addr: A },
    /// Point the proxy at this address.
    Route { addr: A },
    /// Wait for the broker to tell of a model.
    AwaitModel,
    /// Leave.
    Stop,
}

/// What has been done or was waited for.
#[derive(Clone, Copy, Debug, PartialEq, Eq)]
pub enum Happening<A> {
    Subscribed,
    /// A server was built, to be reached at this address.
    Built { addr: A },
    Spawned,
    Routed,
    /// The broker told of a model.
    ModelRegistered,
    /// The broker has nothing more to tell.
    BrokerClosed,
}

/// Whether this can come of doing that.
pub open spec fn can_happen<A>(step: Step<A>, happening: Happening<A>) -> bool {
    match happening {
        Happening::Subscribed => step is Subscribe,
        Happening::Built { .. } => step is Build,
        Happening::Spawned => step is Spawn,
        Happening::Routed => step is Route,
        Happening::ModelRegistered => step is AwaitModel,
        Happening::BrokerClosed => step is AwaitModel,
    }
}

/// What is to be done after what has happened.
pub open spec fn next<A>(step: Step<A>, happening: Happening<A>) -> Step<A>
    recommends
        can_happen(step, happening),
{
    match happening {
        Happening::Subscribed => Step::Build,
        Happening::Built { addr } => Step::Spawn { addr },
        Happening::Spawned => Step::Route { addr: step->Spawn_addr },
        Happening::Routed => Step::AwaitModel,
        Happening::ModelRegistered => Step::Build,
        Happening::BrokerClosed => Step::Stop,
    }
}

/// Decides when the GraphQL server is built anew.
#[derive(Debug)]
pub struct GraphqlSupervisor<A> {
    step: Step<A>,
}

impl<A> View for GraphqlSupervisor<A> {
    type V = Step<A>;

    closed spec fn view(&self) -> Step<A> {
        self.step
    }
}

impl<A: Copy> GraphqlSupervisor<A> {
    /// The broker is subscribed to before any server is built.
    pub fn new() -> (r: Self)
        ensures
            r@ == Step::<A>::Subscribe,
    {
        GraphqlSupervisor { step: Step::Subscribe }
    }

    /// What is to be done next.
    pub fn step(&self) -> (r: Step<A>)
        ensures
            r == self@,
    {
        self.step
    }

    /// Takes note of what has happened.
    pub fn observe(&mut self, happening: Happening<A>)
        requires
            can_happen(old(self)@, happening),
        ensures
            final(self)@ == next(old(self)@, happening),
            match happening {
                Happening::Subscribed => final(self)@ == Step::<A>::Build,
                Happening::Built { addr } => final(self)@ == Step::Spawn { addr },
                Happening::Spawned => old(self)@ matches Step::Spawn { addr } && final(self)@
                    == Step::Route { addr },
                Happening::Routed => final(self)@ == Step::<A>::AwaitModel,
                Happening::ModelRegistered => final(self)@ == Step::<A>::Build,
                Happening::BrokerClosed => final(self)@ == Step::<A>::Stop,
            },
    {
        let step = match happening {
            Happening::Subscribed => Step::Build,
            Happening::Built { addr } => Step::Spawn { addr },
            Happening::Spawned => match self.step {
                Step::Spawn { addr } => Step::Route { addr },
                other => other,
            },
            Happening::Routed => Step::AwaitModel,
            Happening::ModelRegistered => Step::Build,
            Happening::BrokerClosed => Step::Stop,
        };
        self.step = step;
    }
}

/// What occurs in a run of the supervisor, or around it.
pub enum Occurrence<A> {
    /// The supervisor observes this.
    Observed(Happening<A>),
    /// A model is published to the broker.
    Published,
    /// The broker takes no more models.
    Closed,
    /// The servers are told to shut down.
    Shutdown,
}

/// Where a run has come to.
pub struct Scene<A> {
    pub step: Step<A>,
    /// How often the broker was subscribed to.
    pub subscriptions: nat,
    /// How many models were published since the broker was subscribed to.
    pub published: nat,
    /// How many of these the supervisor has observed.
    pub observed: nat,
    /// Whether the broker takes no more models.
    pub closed: bool,
    /// The servers that were built, in order.
    pub built: Seq<A>,
    /// The servers that were let run, in order.
    pub spawned: Seq<A>,
    /// The addresses that the proxy was pointed at, in order.
    pub routed: Seq<A>,
}

/// The start of a run.
pub open spec fn start<A>() -> Scene<A> {
    Scene {
        step: Step::Subscribe,
        subscriptions: 0,
        published: 0,
        observed: 0,
        closed: false,
        built: Seq::empty(),
        spawned: Seq::empty(),
        routed: Seq::empty(),
    }
}

/// Whether this can occur next. A subscriber is told of each model that is published, and only
/// when it was told of all that the broker has closed.
pub open spec fn can_occur<A>(scene: Scene<A>, occurrence: Occurrence<A>) -> bool {
    match occurrence {
        Occurrence::Observed(happening) => {
            &&& can_happen(scene.step, happening)
            &&& happening is ModelRegistered ==> scene.observed < scene.published
            &&& happening is BrokerClosed ==> scene.closed && scene.observed == scene.published
        },
        Occurrence::Published => !scene.closed,
        Occurrence::Closed => !scene.closed,
        Occurrence::Shutdown => true,
    }
}

/// Where the run comes to when this occurs.
pub open spec fn follow<A>(scene: Scene<A>, occurrence: Occurrence<A>) -> Scene<A> {
    match occurrence {
        Occurrence::Observed(happening) => {
            let moved = Scene { step: next(scene.step, happening), ..scene };
            match happening {
                Happening::Subscribed => Scene { subscriptions: scene.subscriptions + 1, ..moved },
                Happening::Built { addr } => Scene { built: scene.built.push(addr), ..moved },
                Happening::Spawned => Scene {
                    spawned: scene.spawned.push(scene.step->Spawn_addr),
                    ..moved
                },
                Happening::Routed => Scene {
                    routed: scene.routed.push(scene.step->Route_addr),
                    ..moved
                },
                Happening::ModelRegistered => Scene { observed: scene.observed + 1, ..moved },
                Happening::BrokerClosed => moved,
            }
        },
        Occurrence::Published => if scene.subscriptions > 0 {
            Scene { published: scene.published + 1, ..scene }
        } else {
            scene
        },
        Occurrence::Closed => Scene { closed: true, ..scene },
        Occurrence::Shutdown => scene,
    }
}

/// Where a run comes to.
pub open spec fn scene_after<A>(occurrences: Seq<Occurrence<A>>) -> Scene<A>
    decreases occurrences.len(),
{
    if occurrences.len() == 0 {
        start()
    } else {
        follow(scene_after(occurrences.drop_last()), occurrences.last())
    }
}

/// Whether things can occur in this order.
pub open spec fn is_run<A>(occurrences: Seq<Occurrence<A>>) -> bool
    decreases occurrences.len(),
{
    occurrences.len() == 0 || {
        &&& is_run(occurrences.drop_last())
        &&& can_occur(scene_after(occurrences.drop_last()), occurrences.last())
    }
}

/// What holds wherever a run has come to.
spec fn holds_throughout<A>(scene: Scene<A>) -> bool {
    let built = scene.built;
    &&& scene.subscriptions == if scene.step is Subscribe {
        0nat
    } else {
        1nat
    }
    &&& scene.step is Subscribe ==> scene.published == 0
    &&& scene.observed <= scene.published
    &&& built.len() == scene.observed + if scene.step is Subscribe || scene.step is Build {
        0nat
    } else {
        1nat
    }
    &&& match scene.step {
        Step::Spawn { addr } => {
            &&& built == scene.spawned.push(addr)
            &&& scene.routed == scene.spawned
        },
        Step::Route { addr } => {
            &&& scene.spawned == built
            &&& built == scene.routed.push(addr)
        },
        _ => scene.spawned == built && scene.routed == built,
    }
    &&& scene.step is Stop ==> scene.closed && scene.observed == scene.published
}

/// It does hold wherever a run has come to.
proof fn lemma_holds_throughout<A>(occurrences: Seq<Occurrence<A>>)
    requires
        is_run(occurrences),
    ensures
        holds_throughout(scene_after(occurrences)),
    decreases occurrences.len(),
{
    if occurrences.len() > 0 {
        lemma_holds_throughout(occurrences.drop_last());
    }
}

/// The steps follow each other: a subscription leads to a server, a server that was built is let
/// run, then the proxy is pointed at that very server, then a model is awaited; a model leads to
/// a new server, and the broker's end to the end.
pub proof fn law_steps_follow_each_other<A>(step: Step<A>, addr: A)
    ensures
        can_happen(step, Happening::Subscribed) <==> step is Subscribe,
        can_happen(step, (Happening::Built { addr })) <==> step is Build,
        can_happen(step, Happening::Spawned) <==> step is Spawn,
        can_happen(step, Happening::Routed) <==> step is Route,
        can_happen(step, Happening::ModelRegistered) <==> step is AwaitModel,
        can_happen(step, Happening::BrokerClosed) <==> step is AwaitModel,
        next(step, Happening::Subscribed) == Step::<A>::Build,
        next(step, (Happening::Built { addr })) == (Step::Spawn { addr }),
        next((Step::Spawn { addr }), Happening::Spawned) == (Step::Route { addr }),
        next(step, Happening::Routed) == Step::<A>::AwaitModel,
        next(step, Happening::ModelRegistered) == Step::<A>::Build,
        next(step, Happening::BrokerClosed) == Step::<A>::Stop,
{
}

/// The broker is subscribed to at most once, and before the first server is built.
pub proof fn law_the_broker_is_subscribed_to_once_and_first<A>(occurrences: Seq<Occurrence<A>>)
    requires
        is_run(occurrences),
    ensures
        scene_after(occurrences).subscriptions <= 1,
        scene_after(occurrences).step is Build || scene_after(occurrences).built.len() > 0
            ==> scene_after(occurrences).subscriptions == 1,
{
    lemma_holds_throughout(occurrences);
}

/// A server is built for the start and for each model that the supervisor observes, and for
/// nothing else. Once it has stopped there was one for each model that was published since the
/// broker was subscribed to, also for those published while another server was being built.
pub proof fn law_one_server_for_each_model<A>(occurrences: Seq<Occurrence<A>>)
    requires
        is_run(occurrences),
    ensures
        ({
            let scene = scene_after(occurrences);
            &&& scene.step is AwaitModel || scene.step is Stop ==> scene.routed.len()
                == scene.observed + 1
            &&& scene.step is Stop ==> scene.routed.len() == scene.published + 1
        }),
{
    lemma_holds_throughout(occurrences);
}

/// As long as a published model is not yet observed the supervisor does not stop: what it
/// observes while it waits leads to a new server.
pub proof fn law_published_models_lead_to_a_rebuild<A>(
    occurrences: Seq<Occurrence<A>>,
    happening: Happening<A>,
)
    requires
        is_run(occurrences),
        scene_after(occurrences).observed < scene_after(occurrences).published,
    ensures
        !(scene_after(occurrences).step is Stop),
        scene_after(occurrences).step is AwaitModel && can_occur(
            scene_after(occurrences),
            Occurrence::Observed(happening),
        ) ==> next(scene_after(occurrences).step, happening) is Build,
{
    lemma_holds_throughout(occurrences);
}

/// A server runs before the proxy is pointed at it, and in between no other is built. Whenever
/// the supervisor waits or has stopped the proxy points at the newest server.
pub proof fn law_the_proxy_points_at_the_newest_server<A>(occurrences: Seq<Occurrence<A>>)
    requires
        is_run(occurrences),
    ensures
        ({
            let scene = scene_after(occurrences);
            &&& scene.spawned.is_prefix_of(scene.built)
            &&& scene.routed.is_prefix_of(scene.spawned)
            &&& scene.built.len() <= scene.routed.len() + 1
            &&& scene.step is AwaitModel || scene.step is Stop ==> {
                &&& scene.routed.len() > 0
                &&& scene.routed.last() == scene.built.last()
                &&& scene.spawned.last() == scene.built.last()
            }
        }),
{
    lemma_holds_throughout(occurrences);
    let scene = scene_after(occurrences);
    assert(scene.spawned =~= scene.built.subrange(0, scene.spawned.len() as int));
    assert(scene.routed =~= scene.spawned.subrange(0, scene.routed.len() as int));
}

/// The supervisor has stopped if and only if it was told that the broker has closed, and it is
/// told so only behind all that was published.
pub proof fn law_stops_when_the_broker_closes<A>(occurrences: Seq<Occurrence<A>>)
    requires
        is_run(occurrences),
    ensures
        scene_after(occurrences).step is Stop <==> exists|i: int|
            0 <= i < occurrences.len() && #[trigger] occurrences[i] == Occurrence::Observed(
                Happening::<A>::BrokerClosed,
            ),
        scene_after(occurrences).step is Stop ==> {
            &&& scene_after(occurrences).closed
            &&& scene_after(occurrences).observed == scene_after(occurrences).published
        },
    decreases occurrences.len(),
{
    lemma_holds_throughout(occurrences);
    if occurrences.len() > 0 {
        let front = occurrences.drop_last();
        law_stops_when_the_broker_closes(front);
        let told = Occurrence::Observed(Happening::<A>::BrokerClosed);
        if scene_after(front).step is Stop {
            let i = choose|i: int| 0 <= i < front.len() && #[trigger] front[i] == told;
            assert(occurrences[i] == told);
        }
        if occurrences.last() == told {
            assert(occurrences[occurrences.len() - 1] == told);
        }
        if exists|i: int| 0 <= i < occurrences.len() && #[trigger] occurrences[i] == told {
            let i = choose|i: int| 0 <= i < occurrences.len() && #[trigger] occurrences[i] == told;
            if i < front.len() {
                assert(front[i] == told);
            }
        }
    }
}

/// That the servers are told to shut down moves the supervisor nowhere: as long as the broker is
/// open it does not stop, however often they are.
pub proof fn law_a_shutdown_does_not_stop_the_supervisor<A>(occurrences: Seq<Occurrence<A>>)
    requires
        is_run(occurrences),
    ensures
        is_run(occurrences.push(Occurrence::Shutdown)),
        scene_after(occurrences.push(Occurrence::Shutdown)) == scene_after(occurrences),
        !scene_after(occurrences).closed ==> !(scene_after(occurrences).step is Stop),
{
    lemma_holds_throughout(occurrences);
    assert(occurrences.push(Occurrence::Shutdown).drop_last() =~= occurrences);
}

} // verus!
