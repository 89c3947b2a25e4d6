//! Bounded in-process tool adapter.
//!
//! The adapter never invokes a shell, searches `PATH`, or starts a process. Trusted startup
//! code registers typed handlers and maps model-visible route names to fixed capability tool
//! and action identifiers. [`ToolCatalog`] may then prepare bounded operations for
//! [`ToolExecutionGate`].

use vstd::prelude::*;

use crate::event;
use crate::event::EventStore;
use crate::execution;
use crate::execution::{
    Executed, ExecutionAdapter, ExecutionError, ExecutionGate, ExecutionOutcome, GateModel,
    GuardedOperation, RetainedModel,
};
use crate::ids::{ApprovalId, TaskId};
use crate::policy::{CapabilityRequest, RequestModel};
use crate::recovery::TaskSnapshot;
use crate::state::TaskState;
use crate::supervisor;
use crate::supervisor::TaskSupervisor;
use crate::text;
use crate::text::{
    bytes_contain, clone_bytes, contains_text, is_bytes_before, is_valid_identifier, text_eq,
};
use crate::time::Duration;

verus! {

pub const DEFAULT_MAX_ROUTES: usize = 256;

pub const MAX_MAX_ROUTES: usize = 4_096;

pub const MAX_IDENTIFIER_BYTES: usize = 64;

pub const MAX_ARGUMENTS: usize = 64;

pub const MAX_ARGUMENT_BYTES: usize = 4_096;

pub const MAX_TOTAL_ARGUMENT_BYTES: usize = 65_536;

pub const MAX_OUTPUT_BYTES: usize = 1_048_576;

/// Stable tool adapter failure categories without route, argument, or handler values.
#[derive(Clone, Copy, Debug, PartialEq, Eq, Structural)]
pub enum ToolAdapterError {
    InvalidConfig,
    InvalidRegistration,
    CapacityExceeded,
    DuplicateRoute,
    RouteNotFound,
    InvalidArguments,
    ScopeMismatch,
    HandlerFailed,
    BudgetExceeded,
    OutputTooLarge,
}

impl ToolAdapterError {
    /// The text of the failure.
    pub open spec fn text(self) -> Seq<char> {
        match self {
            ToolAdapterError::InvalidConfig => "invalid Tool Adapter configuration"@,
            ToolAdapterError::InvalidRegistration => "invalid Tool registration"@,
            ToolAdapterError::CapacityExceeded => "Tool route capacity exceeded"@,
            ToolAdapterError::DuplicateRoute => "Tool route already registered"@,
            ToolAdapterError::RouteNotFound => "Tool route not found"@,
            ToolAdapterError::InvalidArguments => "Tool arguments are invalid"@,
            ToolAdapterError::ScopeMismatch
            => "Tool operation does not match the registered scope"@,
            ToolAdapterError::HandlerFailed => "Tool handler failed"@,
            ToolAdapterError::BudgetExceeded => "Tool operation exceeded the Task Budget"@,
            ToolAdapterError::OutputTooLarge => "Tool output exceeds the configured limit"@,
        }
    }

    /// The text of the failure.
    #[must_use]
    pub fn display(&self) -> (r: &'static str)
        ensures
            r@ == self.text(),
    {
        match self {
            ToolAdapterError::InvalidConfig => "invalid Tool Adapter configuration",
            ToolAdapterError::InvalidRegistration => "invalid Tool registration",
            ToolAdapterError::CapacityExceeded => "Tool route capacity exceeded",
            ToolAdapterError::DuplicateRoute => "Tool route already registered",
            ToolAdapterError::RouteNotFound => "Tool route not found",
            ToolAdapterError::InvalidArguments => "Tool arguments are invalid",
            ToolAdapterError::ScopeMismatch => {
                "Tool operation does not match the registered scope"
            },
            ToolAdapterError::HandlerFailed => "Tool handler failed",
            ToolAdapterError::BudgetExceeded => "Tool operation exceeded the Task Budget",
            ToolAdapterError::OutputTooLarge => "Tool output exceeds the configured limit",
        }
    }
}

/// Bounded opaque tool output. It intentionally has no `Debug` implementation.
pub struct ToolOutput {
    bytes: Vec<u8>,
}

impl View for ToolOutput {
    type V = Seq<u8>;

    closed spec fn view(&self) -> Seq<u8> {
        self.bytes@
    }
}

/// Whether an output of this many bytes may be given out.
pub open spec fn fits_output(length: nat) -> bool {
    length <= MAX_OUTPUT_BYTES
}

impl ToolOutput {
    /// Takes bytes of bounded length.
    pub fn from_bytes(bytes: Vec<u8>) -> (r: Result<ToolOutput, ToolAdapterError>)
        ensures
            r is Ok <==> fits_output(bytes@.len()),
            r is Ok ==> (r->Ok_0)@ == bytes@,
            r is Err ==> r->Err_0 == ToolAdapterError::OutputTooLarge,
    {
        if bytes.len() > MAX_OUTPUT_BYTES {
            return Err(ToolAdapterError::OutputTooLarge);
        }
        Ok(ToolOutput { bytes })
    }

    /// Takes a text of bounded length.
    pub fn from_text(text: String) -> (r: Result<ToolOutput, ToolAdapterError>)
        ensures
            r is Ok <==> fits_output(text::utf8(text@).len()),
            r is Ok ==> (r->Ok_0)@ == text::utf8(text@),
            r is Err ==> r->Err_0 == ToolAdapterError::OutputTooLarge,
    {
        ToolOutput::from_bytes(clone_bytes(text.as_str().as_bytes()))
    }

    /// The bytes of the output.
    #[must_use]
    pub fn as_bytes(&self) -> (r: &[u8])
        ensures
            r@ == self@,
    {
        self.bytes.as_slice()
    }

    /// The bytes of the output.
    #[must_use]
    pub fn into_bytes(self) -> (r: Vec<u8>)
        ensures
            r@ == self@,
    {
        self.bytes
    }
}

/// Redacted failure returned by a tool handler.
#[derive(Clone, Copy, Debug, PartialEq, Eq, Structural)]
pub struct ToolFailure {
    budget: bool,
}

impl ToolFailure {
    /// Whether the handler stopped because the budget of its task was used up.
    pub closed spec fn over_budget(self) -> bool {
        self.budget
    }

    /// A failure of the handler.
    #[must_use]
    pub fn new() -> (r: ToolFailure)
        ensures
            !r.over_budget(),
    {
        ToolFailure { budget: false }
    }

    /// A handler that stopped because the budget of its task was used up.
    #[must_use]
    pub fn budget_exceeded() -> (r: ToolFailure)
        ensures
            r.over_budget(),
    {
        ToolFailure { budget: true }
    }

    /// The text of the failure.
    #[must_use]
    pub fn display(&self) -> (r: &'static str)
        ensures
            r@ == "tool handler failed"@,
    {
        "tool handler failed"
    }
}

impl Default for ToolFailure {
    fn default() -> (r: Self)
        ensures
            !r.over_budget(),
    {
        ToolFailure::new()
    }
}

/// In-process handler registered by trusted startup code.
pub trait ToolHandler {
    /// What the handler may answer to arguments: anything, unless the handler says more.
    open spec fn answers(
        &self,
        arguments: Seq<Seq<char>>,
        r: Result<ToolOutput, ToolFailure>,
    ) -> bool {
        true
    }

    /// A number that stands for what the handler remembers: zero, unless the handler says more.
    open spec fn state(&self) -> int {
        0
    }

    /// What the handler may remember after an answer: anything, unless the handler says more.
    open spec fn leads_to(
        &self,
        arguments: Seq<Seq<char>>,
        r: Result<ToolOutput, ToolFailure>,
        next: int,
    ) -> bool {
        true
    }

    /// Runs the handler.
    fn execute(&mut self, arguments: Vec<String>) -> (r: Result<ToolOutput, ToolFailure>)
        ensures
            old(self).answers(text::texts(arguments@), r),
            old(self).leads_to(text::texts(arguments@), r, final(self).state()),
    ;
}

/// Handlers of different types stand behind one type of pointer.
impl ToolHandler for Box<dyn ToolHandler> {
    open spec fn answers(
        &self,
        arguments: Seq<Seq<char>>,
        r: Result<ToolOutput, ToolFailure>,
    ) -> bool {
        (**self).answers(arguments, r)
    }

    open spec fn state(&self) -> int {
        (**self).state()
    }

    open spec fn leads_to(
        &self,
        arguments: Seq<Seq<char>>,
        r: Result<ToolOutput, ToolFailure>,
        next: int,
    ) -> bool {
        (**self).leads_to(arguments, r, next)
    }

    fn execute(&mut self, arguments: Vec<String>) -> (r: Result<ToolOutput, ToolFailure>) {
        (**self).execute(arguments)
    }
}

// ----------------------------------------------------------------- arguments

/// The bytes of a list of texts, all together.
pub open spec fn total_bytes(arguments: Seq<Seq<char>>) -> nat
    decreases arguments.len(),
{
    if arguments.len() == 0 {
        0
    } else {
        total_bytes(arguments.drop_last()) + text::utf8(arguments.last()).len()
    }
}

/// Arguments within the limits, without NUL.
pub open spec fn valid_arguments(arguments: Seq<Seq<char>>) -> bool {
    &&& arguments.len() <= MAX_ARGUMENTS
    &&& forall|i: int|
        0 <= i < arguments.len() ==> text::utf8(#[trigger] arguments[i]).len()
            <= MAX_ARGUMENT_BYTES && !text::has_nul(arguments[i])
    &&& total_bytes(arguments) <= MAX_TOTAL_ARGUMENT_BYTES
}

/// A prefix has no more bytes than the whole.
pub proof fn lemma_total_bytes_prefix(arguments: Seq<Seq<char>>, n: int)
    requires
        0 <= n <= arguments.len(),
    ensures
        total_bytes(arguments.take(n)) <= total_bytes(arguments),
    decreases arguments.len(),
{
    if n == arguments.len() {
        assert(arguments.take(n) =~= arguments);
    } else {
        lemma_total_bytes_prefix(arguments.drop_last(), n);
        assert(arguments.drop_last().take(n) =~= arguments.take(n));
    }
}

/// Decides [`valid_arguments`].
pub fn are_valid_arguments(arguments: &Vec<String>) -> (r: bool)
    ensures
        r == valid_arguments(text::texts(arguments@)),
{
    if arguments.len() > MAX_ARGUMENTS {
        return false;
    }
    let ghost models = text::texts(arguments@);
    let mut total: usize = 0;
    let mut i: usize = 0;
    assert(models.take(0) =~= Seq::<Seq<char>>::empty());
    while i < arguments.len()
        invariant
            i <= arguments@.len(),
            models == text::texts(arguments@),
            total == total_bytes(models.take(i as int)),
            total <= MAX_TOTAL_ARGUMENT_BYTES,
            forall|k: int|
                0 <= k < i ==> text::utf8(#[trigger] models[k]).len() <= MAX_ARGUMENT_BYTES
                    && !text::has_nul(models[k]),
        decreases arguments@.len() - i,
    {
        let bytes = arguments[i].as_str().as_bytes();
        let ghost next = models.take(i + 1);
        proof {
            assert(models[i as int] == arguments@[i as int]@);
            assert(next.drop_last() =~= models.take(i as int));
            assert(next.last() == models[i as int]);
        }
        if bytes.len() > MAX_ARGUMENT_BYTES || bytes_contain(bytes, 0) {
            return false;
        }
        total = total + bytes.len();
        if total > MAX_TOTAL_ARGUMENT_BYTES {
            proof {
                lemma_total_bytes_prefix(models, i + 1);
            }
            return false;
        }
        i = i + 1;
    }
    assert(models.take(i as int) =~= models);
    true
}

fn validate_arguments(arguments: &Vec<String>) -> (r: Result<(), ToolAdapterError>)
    ensures
        r is Ok <==> valid_arguments(text::texts(arguments@)),
        r is Err ==> r->Err_0 == ToolAdapterError::InvalidArguments,
{
    if are_valid_arguments(arguments) {
        Ok(())
    } else {
        Err(ToolAdapterError::InvalidArguments)
    }
}

// -------------------------------------------------------------------- routes

/// One route and the capability identifiers fixed at its registration.
pub struct RouteModel {
    pub route: Seq<char>,
    pub tool: Seq<char>,
    pub action: Seq<char>,
}

/// Whether routes, tools and actions are identifiers.
pub open spec fn routes_named(routes: Seq<RouteModel>) -> bool {
    forall|i: int|
        0 <= i < routes.len() ==> {
            &&& text::is_identifier((#[trigger] routes[i]).route, MAX_IDENTIFIER_BYTES as nat)
            &&& text::is_identifier(routes[i].tool, MAX_IDENTIFIER_BYTES as nat)
            &&& text::is_identifier(routes[i].action, MAX_IDENTIFIER_BYTES as nat)
        }
}

/// Routes are kept in the order of their names, each name once.
pub open spec fn routes_ordered(routes: Seq<RouteModel>) -> bool {
    forall|i: int, j: int|
        0 <= i < j < routes.len() ==> text::bytes_before(
            text::utf8((#[trigger] routes[i]).route),
            text::utf8((#[trigger] routes[j]).route),
        )
}

/// Whether a route is registered.
pub open spec fn has_route(routes: Seq<RouteModel>, route: Seq<char>) -> bool {
    exists|i: int| 0 <= i < routes.len() && (#[trigger] routes[i]).route == route
}

/// What a route was registered with.
pub open spec fn route_of(routes: Seq<RouteModel>, route: Seq<char>) -> RouteModel {
    routes[choose|i: int| 0 <= i < routes.len() && (#[trigger] routes[i]).route == route]
}

/// How many routes come before a name.
pub open spec fn route_rank(routes: Seq<RouteModel>, route: Seq<char>) -> int
    decreases routes.len(),
{
    if routes.len() == 0 || !text::bytes_before(text::utf8(routes[0].route), text::utf8(route)) {
        0
    } else {
        1 + route_rank(routes.drop_first(), route)
    }
}

/// The routes with one more in its place.
pub open spec fn with_route(routes: Seq<RouteModel>, added: RouteModel) -> Seq<RouteModel> {
    let at = route_rank(routes, added.route);
    routes.take(at) + seq![added] + routes.skip(at)
}

pub proof fn lemma_rank(routes: Seq<RouteModel>, route: Seq<char>)
    ensures
        0 <= route_rank(routes, route) <= routes.len(),
        forall|k: int|
            0 <= k < route_rank(routes, route) ==> text::bytes_before(
                text::utf8((#[trigger] routes[k]).route),
                text::utf8(route),
            ),
        route_rank(routes, route) < routes.len() ==> !text::bytes_before(
            text::utf8(routes[route_rank(routes, route)].route),
            text::utf8(route),
        ),
    decreases routes.len(),
{
    if routes.len() > 0 && text::bytes_before(text::utf8(routes[0].route), text::utf8(route)) {
        let rest = routes.drop_first();
        lemma_rank(rest, route);
        assert forall|k: int| 0 <= k < route_rank(routes, route) implies text::bytes_before(
            text::utf8((#[trigger] routes[k]).route),
            text::utf8(route),
        ) by {
            if k > 0 {
                assert(rest[k - 1] == routes[k]);
            }
        }
    }
}

proof fn lemma_rank_is(routes: Seq<RouteModel>, route: Seq<char>, at: int)
    requires
        0 <= at <= routes.len(),
        forall|k: int|
            0 <= k < at ==> text::bytes_before(
                text::utf8((#[trigger] routes[k]).route),
                text::utf8(route),
            ),
        at < routes.len() ==> !text::bytes_before(
            text::utf8(routes[at].route),
            text::utf8(route),
        ),
    ensures
        route_rank(routes, route) == at,
    decreases at,
{
    if at > 0 {
        assert(text::bytes_before(text::utf8(routes[0].route), text::utf8(route)));
        let rest = routes.drop_first();
        assert forall|k: int| 0 <= k < at - 1 implies text::bytes_before(
            text::utf8((#[trigger] rest[k]).route),
            text::utf8(route),
        ) by {
            assert(rest[k] == routes[k + 1]);
        }
        lemma_rank_is(rest, route, at - 1);
    }
}

/// Adding a new route keeps the order.
pub proof fn lemma_with_route_ordered(routes: Seq<RouteModel>, added: RouteModel)
    requires
        routes_ordered(routes),
        !has_route(routes, added.route),
    ensures
        routes_ordered(with_route(routes, added)),
{
    lemma_rank(routes, added.route);
    let at = route_rank(routes, added.route);
    let all = with_route(routes, added);
    let name = text::utf8(added.route);
    assert forall|k: int| at <= k < routes.len() implies text::bytes_before(
        name,
        text::utf8((#[trigger] routes[k]).route),
    ) by {
        let here = text::utf8(routes[at].route);
        text::lemma_bytes_before_total(here, name);
        if here == name {
            text::lemma_utf8_injective(routes[at].route, added.route);
            assert(has_route(routes, added.route));
        }
        if k > at {
            text::lemma_bytes_before_transitive(name, here, text::utf8(routes[k].route));
        }
    }
    assert forall|i: int, j: int| 0 <= i < j < all.len() implies text::bytes_before(
        text::utf8((#[trigger] all[i]).route),
        text::utf8((#[trigger] all[j]).route),
    ) by {
        if j < at {
            assert(all[i] == routes[i] && all[j] == routes[j]);
        } else if j == at {
            assert(all[i] == routes[i]);
        } else if i < at {
            assert(all[i] == routes[i] && all[j] == routes[j - 1]);
        } else if i == at {
            assert(all[j] == routes[j - 1]);
        } else {
            assert(all[i] == routes[i - 1] && all[j] == routes[j - 1]);
        }
    }
}

/// A registered name is registered once.
pub proof fn lemma_route_unique(routes: Seq<RouteModel>, i: int)
    requires
        routes_ordered(routes),
        0 <= i < routes.len(),
    ensures
        has_route(routes, routes[i].route),
        route_of(routes, routes[i].route) == routes[i],
{
    let name = routes[i].route;
    let j = choose|j: int| 0 <= j < routes.len() && (#[trigger] routes[j]).route == name;
    assert(0 <= j < routes.len() && routes[j].route == name);
    if j != i {
        text::lemma_bytes_before_irreflexive(text::utf8(name));
        if i < j {
            assert(text::bytes_before(text::utf8(routes[i].route), text::utf8(routes[j].route)));
        } else {
            assert(text::bytes_before(text::utf8(routes[j].route), text::utf8(routes[i].route)));
        }
    }
}

struct RouteDefinition {
    route: String,
    capability_tool: String,
    action: String,
}

impl View for RouteDefinition {
    type V = RouteModel;

    closed spec fn view(&self) -> RouteModel {
        RouteModel {
            route: self.route@,
            tool: self.capability_tool@,
            action: self.action@,
        }
    }
}

spec fn definition_models(list: Seq<RouteDefinition>) -> Seq<RouteModel> {
    list.map_values(|d: RouteDefinition| d@)
}

fn find_route(definitions: &Vec<RouteDefinition>, route: &str) -> (r: Option<usize>)
    ensures
        r is Some <==> has_route(definition_models(definitions@), route@),
        r is Some ==> r->0 < definitions@.len() && definitions@[r->0 as int]@.route == route@,
{
    let ghost models = definition_models(definitions@);
    let mut i: usize = 0;
    while i < definitions.len()
        invariant
            i <= definitions@.len(),
            models == definition_models(definitions@),
            forall|k: int| 0 <= k < i ==> (#[trigger] models[k]).route != route@,
        decreases definitions@.len() - i,
    {
        assert(models[i as int] == definitions@[i as int]@);
        if text_eq(definitions[i].route.as_str(), route) {
            return Some(i);
        }
        i = i + 1;
    }
    None
}

/// The place of a route.
pub open spec fn route_place(routes: Seq<RouteModel>, route: Seq<char>) -> int {
    choose|i: int| 0 <= i < routes.len() && (#[trigger] routes[i]).route == route
}

/// The handlers by their routes, where each stands at the place of its route.
pub open spec fn handlers_by_route<H>(routes: Seq<RouteModel>, handlers: Seq<H>) -> Map<
    Seq<char>,
    H,
> {
    Map::new(
        |route: Seq<char>| has_route(routes, route),
        |route: Seq<char>| handlers[route_place(routes, route)],
    )
}

/// The handler at the place of a route is the handler of that route.
proof fn lemma_handler_at<H>(routes: Seq<RouteModel>, handlers: Seq<H>, i: int)
    requires
        routes_ordered(routes),
        0 <= i < routes.len(),
    ensures
        handlers_by_route(routes, handlers).contains_key(routes[i].route),
        handlers_by_route(routes, handlers)[routes[i].route] == handlers[i],
{
    lemma_route_unique(routes, i);
    let name = routes[i].route;
    let j = route_place(routes, name);
    assert(0 <= j < routes.len() && routes[j].route == name);
    if j != i {
        text::lemma_bytes_before_irreflexive(text::utf8(name));
        if i < j {
            assert(text::bytes_before(text::utf8(routes[i].route), text::utf8(routes[j].route)));
        } else {
            assert(text::bytes_before(text::utf8(routes[j].route), text::utf8(routes[i].route)));
        }
    }
}

/// A handler that is put in at the place of its new route becomes the handler of that route,
/// and every other route keeps its own.
proof fn lemma_handler_added<H>(
    routes: Seq<RouteModel>,
    handlers: Seq<H>,
    added: RouteModel,
    handler: H,
)
    requires
        routes_ordered(routes),
        !has_route(routes, added.route),
        handlers.len() == routes.len(),
    ensures
        handlers_by_route(
            with_route(routes, added),
            handlers.insert(route_rank(routes, added.route), handler),
        ) == handlers_by_route(routes, handlers).insert(added.route, handler),
{
    lemma_rank(routes, added.route);
    lemma_with_route_ordered(routes, added);
    let at = route_rank(routes, added.route);
    let all = with_route(routes, added);
    let placed = handlers.insert(at, handler);
    let left = handlers_by_route(all, placed);
    let right = handlers_by_route(routes, handlers).insert(added.route, handler);
    assert forall|route: Seq<char>| #[trigger] right.dom().contains(route) implies left.dom().contains(
        route,
    ) && left[route] == right[route] by {
        if route == added.route {
            assert(all[at] == added);
            lemma_handler_at(all, placed, at);
        } else {
            let i = route_place(routes, route);
            assert(0 <= i < routes.len() && routes[i].route == route);
            lemma_handler_at(routes, handlers, i);
            if i < at {
                assert(all[i] == routes[i]);
                lemma_handler_at(all, placed, i);
            } else {
                assert(all[i + 1] == routes[i]);
                lemma_handler_at(all, placed, i + 1);
            }
        }
    }
    assert forall|route: Seq<char>| #[trigger] left.dom().contains(route) implies right.dom().contains(
        route,
    ) by {
        let i = route_place(all, route);
        assert(0 <= i < all.len() && all[i].route == route);
        if i < at {
            assert(routes[i].route == route);
        } else if i > at {
            assert(routes[i - 1].route == route);
        }
    }
    assert(left.dom() =~= right.dom());
    assert(left =~= right);
}

/// A handler that is put back in its place replaces the handler of its route alone.
proof fn lemma_handler_replaced<H>(
    routes: Seq<RouteModel>,
    handlers: Seq<H>,
    i: int,
    handler: H,
)
    requires
        routes_ordered(routes),
        handlers.len() == routes.len(),
        0 <= i < routes.len(),
    ensures
        handlers_by_route(routes, handlers.update(i, handler)) == handlers_by_route(
            routes,
            handlers,
        ).insert(routes[i].route, handler),
{
    let left = handlers_by_route(routes, handlers.update(i, handler));
    let right = handlers_by_route(routes, handlers).insert(routes[i].route, handler);
    lemma_handler_at(routes, handlers.update(i, handler), i);
    assert forall|route: Seq<char>| left.contains_key(route) implies #[trigger] left[route]
        == right[route] by {
        let j = route_place(routes, route);
        assert(0 <= j < routes.len() && routes[j].route == route);
        lemma_handler_at(routes, handlers, j);
        lemma_handler_at(routes, handlers.update(i, handler), j);
    }
    assert(has_route(routes, routes[i].route));
    assert(left.dom() =~= right.dom());
    assert(left =~= right);
}

/// Trusted builder that creates a matching catalog and private handler adapter.
pub struct ToolAdapterBuilder<H = Box<dyn ToolHandler>> {
    definitions: Vec<RouteDefinition>,
    handlers: Vec<H>,
    max_routes: usize,
}

impl<H> View for ToolAdapterBuilder<H> {
    type V = Seq<RouteModel>;

    closed spec fn view(&self) -> Seq<RouteModel> {
        definition_models(self.definitions@)
    }
}

impl<H> ToolAdapterBuilder<H> {
    /// Every route has its handler, the routes are in order, and every name is an identifier.
    #[verifier::type_invariant]
    spec fn wf(&self) -> bool {
        &&& self.definitions@.len() == self.handlers@.len()
        &&& routes_ordered(self@)
        &&& routes_named(self@)
    }
}

/// Whether an adapter can be made with this route limit.
pub open spec fn usable_route_limit(max_routes: usize) -> bool {
    1 <= max_routes <= MAX_MAX_ROUTES
}

/// What a registration is answered.
pub open spec fn registration(routes: Seq<RouteModel>, limit: nat, added: RouteModel) -> Result<
    (),
    ToolAdapterError,
> {
    if !text::is_identifier(added.route, MAX_IDENTIFIER_BYTES as nat) || !text::is_identifier(
        added.tool,
        MAX_IDENTIFIER_BYTES as nat,
    ) || !text::is_identifier(added.action, MAX_IDENTIFIER_BYTES as nat) {
        Err(ToolAdapterError::InvalidRegistration)
    } else if has_route(routes, added.route) {
        Err(ToolAdapterError::DuplicateRoute)
    } else if routes.len() >= limit {
        Err(ToolAdapterError::CapacityExceeded)
    } else {
        Ok(())
    }
}

impl<H: ToolHandler> ToolAdapterBuilder<H> {
    /// The handlers by their routes.
    pub closed spec fn handlers(&self) -> Map<Seq<char>, H> {
        handlers_by_route(self@, self.handlers@)
    }

    /// The route limit.
    pub closed spec fn limit(&self) -> nat {
        self.max_routes as nat
    }

    /// Creates a builder with a route limit.
    pub fn new(max_routes: usize) -> (r: Result<ToolAdapterBuilder<H>, ToolAdapterError>)
        ensures
            r is Ok <==> usable_route_limit(max_routes),
            r is Ok ==> {
                &&& r->Ok_0.limit() == max_routes
                &&& (r->Ok_0)@ == Seq::<RouteModel>::empty()
                &&& r->Ok_0.handlers() == Map::<Seq<char>, H>::empty()
            },
            r is Err ==> r->Err_0 == ToolAdapterError::InvalidConfig,
    {
        if max_routes == 0 || max_routes > MAX_MAX_ROUTES {
            return Err(ToolAdapterError::InvalidConfig);
        }
        let builder = ToolAdapterBuilder {
            definitions: Vec::new(),
            handlers: Vec::new(),
            max_routes,
        };
        assert(builder@ =~= Seq::<RouteModel>::empty());
        assert(builder.handlers() =~= Map::<Seq<char>, H>::empty());
        Ok(builder)
    }

    /// Registers one model-visible route with fixed capability identifiers and one handler.
    pub fn register(
        &mut self,
        route: &str,
        capability_tool: &str,
        action: &str,
        handler: H,
    ) -> (r: Result<(), ToolAdapterError>)
        ensures
            final(self).limit() == old(self).limit(),
            r == registration(
                old(self)@,
                old(self).limit(),
                (RouteModel { route: route@, tool: capability_tool@, action: action@ }),
            ),
            r is Err ==> final(self)@ == old(self)@ && final(self).handlers() == old(
                self,
            ).handlers(),
            r is Ok ==> final(self)@ == with_route(
                old(self)@,
                (RouteModel { route: route@, tool: capability_tool@, action: action@ }),
            ) && final(self).handlers() == old(self).handlers().insert(route@, handler),
    {
        proof {
            use_type_invariant(&*self);
        }
        if !is_valid_identifier(route, MAX_IDENTIFIER_BYTES) || !is_valid_identifier(
            capability_tool,
            MAX_IDENTIFIER_BYTES,
        ) || !is_valid_identifier(action, MAX_IDENTIFIER_BYTES) {
            return Err(ToolAdapterError::InvalidRegistration);
        }
        if find_route(&self.definitions, route).is_some() {
            return Err(ToolAdapterError::DuplicateRoute);
        }
        if self.definitions.len() >= self.max_routes {
            return Err(ToolAdapterError::CapacityExceeded);
        }
        let ghost start = self@;
        let mut at: usize = 0;
        while at < self.definitions.len() && is_bytes_before(
            self.definitions[at].route.as_str().as_bytes(),
            route.as_bytes(),
        )
            invariant
                at <= self.definitions@.len(),
                *self == *old(self),
                start == self@,
                forall|k: int|
                    0 <= k < at ==> text::bytes_before(
                        text::utf8((#[trigger] start[k]).route),
                        text::utf8(route@),
                    ),
            decreases self.definitions@.len() - at,
        {
            assert(start[at as int] == self.definitions@[at as int]@);
            at = at + 1;
        }
        let definition = RouteDefinition {
            route: route.to_owned(),
            capability_tool: capability_tool.to_owned(),
            action: action.to_owned(),
        };
        let ghost added = definition@;
        proof {
            if at < start.len() {
                assert(start[at as int] == self.definitions@[at as int]@);
            }
            lemma_rank_is(start, route@, at as int);
            lemma_with_route_ordered(start, added);
        }
        let mut held = ToolAdapterBuilder {
            definitions: Vec::new(),
            handlers: Vec::new(),
            max_routes: self.max_routes,
        };
        std::mem::swap(self, &mut held);
        let ToolAdapterBuilder { mut definitions, mut handlers, max_routes } = held;
        proof {
            handlers@.insert_ensures(at as int, handler);
            lemma_handler_added(start, handlers@, added, handler);
        }
        definitions.insert(at, definition);
        handlers.insert(at, handler);
        assert(definition_models(definitions@) =~= with_route(start, added));
        *self = ToolAdapterBuilder { definitions, handlers, max_routes };
        Ok(())
    }

    /// Splits the registrations into a catalog and a guarded adapter.
    #[must_use]
    pub fn build(self) -> (r: (ToolCatalog, ToolExecutionGate<H>))
        ensures
            r.0@ == self@,
            r.1.gate().adapter()@ == self@,
            r.1.gate().adapter().handlers() == self.handlers(),
            r.1.gate().adapter().wf(),
            r.1.gate()@ == (GateModel {
                pending: Map::<u128, RetainedModel<ToolOperation>>::empty(),
                index: Map::<u128, u128>::empty(),
            }),
    {
        proof {
            use_type_invariant(&self);
        }
        let mut copies: Vec<RouteDefinition> = Vec::new();
        let mut i: usize = 0;
        while i < self.definitions.len()
            invariant
                i <= self.definitions@.len(),
                copies@.len() == i,
                forall|k: int| 0 <= k < i ==> copies@[k]@ == self.definitions@[k]@,
            decreases self.definitions@.len() - i,
        {
            copies.push(
                RouteDefinition {
                    route: self.definitions[i].route.clone(),
                    capability_tool: self.definitions[i].capability_tool.clone(),
                    action: self.definitions[i].action.clone(),
                },
            );
            i = i + 1;
        }
        assert(definition_models(copies@) =~= self@);
        let catalog = ToolCatalog { definitions: copies };
        let adapter = ToolAdapter { definitions: self.definitions, handlers: self.handlers };
        (catalog, ToolExecutionGate { gate: ExecutionGate::new(adapter) })
    }
}

impl<H: ToolHandler> Default for ToolAdapterBuilder<H> {
    fn default() -> (r: Self)
        ensures
            r.limit() == DEFAULT_MAX_ROUTES,
            r@ == Seq::<RouteModel>::empty(),
            r.handlers() == Map::<Seq<char>, H>::empty(),
    {
        let builder = ToolAdapterBuilder {
            definitions: Vec::new(),
            handlers: Vec::new(),
            max_routes: DEFAULT_MAX_ROUTES,
        };
        assert(builder@ =~= Seq::<RouteModel>::empty());
        assert(builder.handlers() =~= Map::<Seq<char>, H>::empty());
        builder
    }
}

// ----------------------------------------------------------------- operation

/// What a tool operation runs.
pub struct ToolOperationModel {
    pub route: Seq<char>,
    pub tool: Seq<char>,
    pub action: Seq<char>,
    pub arguments: Seq<Seq<char>>,
}

/// Complete tool operation retained by the execution gate while approval is pending.
///
/// This type intentionally does not implement `Clone` or `Debug`. Operations can only be
/// constructed by a catalog built from the same trusted registration format as an adapter.
pub struct ToolOperation {
    route: String,
    capability_tool: String,
    action: String,
    arguments: Vec<String>,
}

impl View for ToolOperation {
    type V = ToolOperationModel;

    closed spec fn view(&self) -> ToolOperationModel {
        ToolOperationModel {
            route: self.route@,
            tool: self.capability_tool@,
            action: self.action@,
            arguments: text::texts(self.arguments@),
        }
    }
}

impl GuardedOperation for ToolOperation {
    open spec fn asks(&self) -> RequestModel {
        RequestModel::Tool { tool: self@.tool, action: self@.action }
    }

    fn capability_request(&self) -> (r: CapabilityRequest<'_>) {
        CapabilityRequest::Tool {
            tool: self.capability_tool.as_str(),
            action: self.action.as_str(),
        }
    }
}

/// The operation that a catalog prepares.
pub open spec fn prepared(
    routes: Seq<RouteModel>,
    route: Seq<char>,
    arguments: Seq<Seq<char>>,
) -> Result<ToolOperationModel, ToolAdapterError> {
    if !has_route(routes, route) {
        Err(ToolAdapterError::RouteNotFound)
    } else if !valid_arguments(arguments) {
        Err(ToolAdapterError::InvalidArguments)
    } else {
        Ok(
            ToolOperationModel {
                route,
                tool: route_of(routes, route).tool,
                action: route_of(routes, route).action,
                arguments,
            },
        )
    }
}

/// Read-only route catalog safe to expose to operation preparation code.
pub struct ToolCatalog {
    definitions: Vec<RouteDefinition>,
}

impl View for ToolCatalog {
    type V = Seq<RouteModel>;

    closed spec fn view(&self) -> Seq<RouteModel> {
        definition_models(self.definitions@)
    }
}

impl ToolCatalog {
    /// The routes are in order, and every name is an identifier.
    #[verifier::type_invariant]
    pub open spec fn wf(&self) -> bool {
        routes_ordered(self@) && routes_named(self@)
    }

    /// Creates a bounded operation using capability identifiers fixed at registration time.
    pub fn prepare(&self, route: &str, arguments: Vec<String>) -> (r: Result<
        ToolOperation,
        ToolAdapterError,
    >)
        ensures
            prepared(self@, route@, text::texts(arguments@)) == (match r {
                Ok(operation) => Ok::<ToolOperationModel, ToolAdapterError>(operation@),
                Err(error) => Err(error),
            }),
    {
        proof {
            use_type_invariant(self);
        }
        let at = match find_route(&self.definitions, route) {
            Some(at) => at,
            None => {
                return Err(ToolAdapterError::RouteNotFound);
            },
        };
        proof {
            assert(self@[at as int] == self.definitions@[at as int]@);
            lemma_route_unique(self@, at as int);
        }
        if let Err(error) = validate_arguments(&arguments) {
            return Err(error);
        }
        Ok(
            ToolOperation {
                route: route.to_owned(),
                capability_tool: self.definitions[at].capability_tool.clone(),
                action: self.definitions[at].action.clone(),
                arguments,
            },
        )
    }

    /// The number of routes.
    #[must_use]
    pub fn route_count(&self) -> (r: usize)
        ensures
            r == self@.len(),
    {
        self.definitions.len()
    }

    /// Returns only routes whose fixed capability tool is granted to the task, in order.
    #[must_use]
    pub fn route_names_for_tools(&self, capability_tools: &Vec<String>) -> (r: Vec<String>)
        ensures
            text::texts(r@) == granted_routes(self@, text::texts(capability_tools@)),
    {
        let ghost tools = text::texts(capability_tools@);
        let ghost all = self@;
        let mut out: Vec<String> = Vec::new();
        let mut i: usize = 0;
        assert(text::texts(out@) =~= granted_routes(all.take(0), tools));
        while i < self.definitions.len()
            invariant
                i <= self.definitions@.len(),
                all == definition_models(self.definitions@),
                tools == text::texts(capability_tools@),
                text::texts(out@) == granted_routes(all.take(i as int), tools),
            decreases self.definitions@.len() - i,
        {
            let ghost before = text::texts(out@);
            let ghost next = all.take(i + 1);
            proof {
                assert(next.drop_last() =~= all.take(i as int));
                assert(next.last() == self.definitions@[i as int]@);
            }
            if contains_text(capability_tools, self.definitions[i].capability_tool.as_str()) {
                out.push(self.definitions[i].route.clone());
                assert(text::texts(out@) =~= before.push(next.last().route));
            }
            i = i + 1;
        }
        assert(all.take(i as int) =~= all);
        out
    }
}

/// The names of the routes whose tool is granted.
pub open spec fn granted_routes(routes: Seq<RouteModel>, tools: Seq<Seq<char>>) -> Seq<Seq<char>>
    decreases routes.len(),
{
    if routes.len() == 0 {
        Seq::<Seq<char>>::empty()
    } else if tools.contains(routes.last().tool) {
        granted_routes(routes.drop_last(), tools).push(routes.last().route)
    } else {
        granted_routes(routes.drop_last(), tools)
    }
}

/// A task is shown only routes whose tool it was granted.
pub proof fn law_only_granted_routes_are_shown(
    routes: Seq<RouteModel>,
    tools: Seq<Seq<char>>,
    i: int,
)
    requires
        routes_ordered(routes),
        0 <= i < granted_routes(routes, tools).len(),
    ensures
        has_route(routes, granted_routes(routes, tools)[i]),
        tools.contains(route_of(routes, granted_routes(routes, tools)[i]).tool),
{
    let k = lemma_granted(routes, tools, i);
    lemma_route_unique(routes, k);
}

pub proof fn lemma_granted(routes: Seq<RouteModel>, tools: Seq<Seq<char>>, i: int) -> (k: int)
    requires
        0 <= i < granted_routes(routes, tools).len(),
    ensures
        0 <= k < routes.len(),
        routes[k].route == granted_routes(routes, tools)[i],
        tools.contains(routes[k].tool),
    decreases routes.len(),
{
    let rest = routes.drop_last();
    if tools.contains(routes.last().tool) && i == granted_routes(rest, tools).len() {
        routes.len() - 1
    } else {
        lemma_granted(rest, tools, i)
    }
}

// ------------------------------------------------------------------- adapter

/// Runs registered handlers. It stands behind a gate and is reached in no other way.
pub struct ToolAdapter<H = Box<dyn ToolHandler>> {
    definitions: Vec<RouteDefinition>,
    handlers: Vec<H>,
}

impl<H> View for ToolAdapter<H> {
    type V = Seq<RouteModel>;

    closed spec fn view(&self) -> Seq<RouteModel> {
        definition_models(self.definitions@)
    }
}

impl<H: ToolHandler> ToolAdapter<H> {
    /// Every route has its handler, and the routes are in order.
    pub closed spec fn wf(&self) -> bool {
        self.definitions@.len() == self.handlers@.len() && routes_ordered(self@)
    }

    /// The handlers by their routes.
    pub closed spec fn handlers(&self) -> Map<Seq<char>, H> {
        handlers_by_route(self@, self.handlers@)
    }
}

/// Whether the handler of a route ran once, on the arguments, and every other handler is as it
/// was.
pub open spec fn handler_ran<H: ToolHandler>(
    before: Map<Seq<char>, H>,
    after: Map<Seq<char>, H>,
    route: Seq<char>,
    arguments: Seq<Seq<char>>,
    answer: Result<ToolOutput, ToolFailure>,
) -> bool {
    &&& before[route].answers(arguments, answer)
    &&& before[route].leads_to(arguments, answer, after[route].state())
    &&& after == before.insert(route, after[route])
}

/// What the adapter returns for what a handler answered. The failure is redacted.
pub open spec fn redacted(answer: Result<ToolOutput, ToolFailure>) -> Result<
    ToolOutput,
    ToolAdapterError,
> {
    match answer {
        Ok(output) => Ok(output),
        Err(failure) => if failure.over_budget() {
            Err(ToolAdapterError::BudgetExceeded)
        } else {
            Err(ToolAdapterError::HandlerFailed)
        },
    }
}

impl<H: ToolHandler> ExecutionAdapter<ToolOperation> for ToolAdapter<H> {
    type Output = ToolOutput;

    type Error = ToolAdapterError;

    /// Only the handler of the route runs, where its registered scope is that of the operation,
    /// and it gets the arguments of the operation.
    open spec fn performs(
        before: Self,
        operation: ToolOperation,
        after: Self,
        r: Result<ToolOutput, ToolAdapterError>,
    ) -> bool {
        &&& after@ == before@
        &&& before.wf() ==> after.wf()
        &&& before.wf() ==> if !valid_arguments(operation@.arguments) {
            &&& r == Err::<ToolOutput, ToolAdapterError>(ToolAdapterError::InvalidArguments)
            &&& after.handlers() == before.handlers()
        } else if !has_route(before@, operation@.route) {
            &&& r == Err::<ToolOutput, ToolAdapterError>(ToolAdapterError::RouteNotFound)
            &&& after.handlers() == before.handlers()
        } else if route_of(before@, operation@.route).tool != operation@.tool || route_of(
            before@,
            operation@.route,
        ).action != operation@.action {
            &&& r == Err::<ToolOutput, ToolAdapterError>(ToolAdapterError::ScopeMismatch)
            &&& after.handlers() == before.handlers()
        } else {
            exists|answer: Result<ToolOutput, ToolFailure>| #[trigger]
                handler_ran(
                    before.handlers(),
                    after.handlers(),
                    operation@.route,
                    operation@.arguments,
                    answer,
                ) && r == redacted(answer)
        }
    }

    fn execute(&mut self, operation: ToolOperation) -> (r: Result<ToolOutput, ToolAdapterError>) {
        if let Err(error) = validate_arguments(&operation.arguments) {
            return Err(error);
        }
        let at = match find_route(&self.definitions, operation.route.as_str()) {
            Some(at) => at,
            None => {
                return Err(ToolAdapterError::RouteNotFound);
            },
        };
        proof {
            assert(self@[at as int] == self.definitions@[at as int]@);
            if self.wf() {
                lemma_route_unique(self@, at as int);
            }
        }
        if !text_eq(
            self.definitions[at].capability_tool.as_str(),
            operation.capability_tool.as_str(),
        ) || !text_eq(self.definitions[at].action.as_str(), operation.action.as_str()) {
            return Err(ToolAdapterError::ScopeMismatch);
        }
        if at >= self.handlers.len() {
            return Err(ToolAdapterError::RouteNotFound);
        }
        let ghost model = operation@;
        let ghost routes = self@;
        let ghost before = self.handlers@;
        let mut handler = self.handlers.remove(at);
        let answer = handler.execute(operation.arguments);
        self.handlers.insert(at, handler);
        proof {
            if old(self).wf() {
                lemma_handler_at(routes, before, at as int);
                lemma_handler_replaced(routes, before, at as int, handler);
                assert(self.handlers@ =~= before.update(at as int, handler));
                assert(handler_ran(
                    old(self).handlers(),
                    self.handlers(),
                    model.route,
                    model.arguments,
                    answer,
                ));
            }
        }
        match answer {
            Ok(output) => Ok(output),
            Err(failure) => {
                if failure.budget {
                    Err(ToolAdapterError::BudgetExceeded)
                } else {
                    Err(ToolAdapterError::HandlerFailed)
                }
            },
        }
    }
}

/// Guarded tool execution boundary that never exposes its raw handler adapter.
pub struct ToolExecutionGate<H: ToolHandler = Box<dyn ToolHandler>> {
    gate: ExecutionGate<ToolAdapter<H>, ToolOperation>,
}

impl<H: ToolHandler> ToolExecutionGate<H> {
    /// The execution gate that every operation passes.
    pub closed spec fn gate(&self) -> ExecutionGate<ToolAdapter<H>, ToolOperation> {
        self.gate
    }

    /// Authorizes an operation and executes it immediately only when no approval is required.
    pub fn request<S: EventStore>(
        &mut self,
        supervisor: &mut TaskSupervisor<S>,
        task_id: TaskId,
        operation: ToolOperation,
        approval_ttl: Duration,
    ) -> (r: Result<ExecutionOutcome<ToolOutput>, ExecutionError<ToolAdapterError>>)
        requires
            old(supervisor)@.coherent(),
        ensures
            final(supervisor)@.coherent(),
            event::carries(old(supervisor).store(), final(supervisor).store()),
            execution::gate_requested(
                old(self).gate(),
                final(self).gate(),
                old(supervisor)@,
                final(supervisor)@,
                task_id.value,
                operation,
                approval_ttl.nanos as nat,
                r,
            ),
            old(supervisor).admits_every_sweep() && old(supervisor).admits(task_id.value, 1)
                && old(supervisor).admits(task_id.value, 2) ==> !execution::store_failed(r),
    {
        self.gate.request(supervisor, task_id, operation, approval_ttl)
    }

    /// Approves, consumes, and executes the exact operation retained by the execution gate.
    pub fn approve_and_execute<S: EventStore>(
        &mut self,
        supervisor: &mut TaskSupervisor<S>,
        approval_id: ApprovalId,
    ) -> (r: Result<Executed<ToolOutput>, ExecutionError<ToolAdapterError>>)
        requires
            old(supervisor)@.coherent(),
        ensures
            final(supervisor)@.coherent(),
            event::carries(old(supervisor).store(), final(supervisor).store()),
            execution::gate_approved(
                old(self).gate(),
                final(self).gate(),
                old(supervisor)@,
                final(supervisor)@,
                approval_id.value,
                r,
            ),
            old(supervisor).has_room(
                execution::held_task(old(self).gate()@, approval_id.value),
                3,
            ) ==> !execution::store_failed(r),
    {
        self.gate.approve_and_execute(supervisor, approval_id)
    }

    /// Denies a pending operation and drops it.
    pub fn deny<S: EventStore>(
        &mut self,
        supervisor: &mut TaskSupervisor<S>,
        approval_id: ApprovalId,
    ) -> (r: Result<TaskSnapshot, ExecutionError<ToolAdapterError>>)
        requires
            old(supervisor)@.coherent(),
        ensures
            final(supervisor)@.coherent(),
            event::carries(old(supervisor).store(), final(supervisor).store()),
            execution::gate_denied(
                old(self).gate(),
                final(self).gate(),
                old(supervisor)@,
                final(supervisor)@,
                approval_id.value,
                r,
            ),
            old(supervisor).admits_every_sweep() ==> !execution::store_failed(r),
    {
        self.gate.deny(supervisor, approval_id)
    }

    /// Expires approvals and drops the operations of tasks that ended.
    pub fn expire<S: EventStore>(&mut self, supervisor: &mut TaskSupervisor<S>) -> (r: Result<
        usize,
        ExecutionError<ToolAdapterError>,
    >)
        requires
            old(supervisor)@.coherent(),
        ensures
            final(supervisor)@.coherent(),
            event::carries(old(supervisor).store(), final(supervisor).store()),
            execution::gate_expired(
                old(self).gate(),
                final(self).gate(),
                old(supervisor)@,
                final(supervisor)@,
                r,
            ),
            old(supervisor).admits_every_sweep() ==> r is Ok,
    {
        self.gate.expire(supervisor)
    }

    /// Cancels a task and drops its operations.
    pub fn cancel<S: EventStore>(
        &mut self,
        supervisor: &mut TaskSupervisor<S>,
        task_id: TaskId,
    ) -> (r: Result<bool, ExecutionError<ToolAdapterError>>)
        requires
            old(supervisor)@.coherent(),
        ensures
            final(supervisor)@.coherent(),
            event::carries(old(supervisor).store(), final(supervisor).store()),
            execution::gate_cancelled(
                old(self).gate(),
                final(self).gate(),
                old(supervisor)@,
                final(supervisor)@,
                task_id.value,
                r,
            ),
            execution::store_failed(r) ==> !old(supervisor).admits(
                task_id.value,
                old(supervisor)@.transition_kinds(
                    task_id.value,
                    TaskState::Cancelled,
                    None,
                ).len(),
            ),
    {
        self.gate.cancel(supervisor, task_id)
    }

    /// How many operations wait behind the execution gate.
    #[must_use]
    pub fn pending_count(&self) -> (r: usize)
        ensures
            r == self.gate()@.pending.dom().len(),
    {
        self.gate.pending_count()
    }
}

} // verus!
