//! Laws on tools.

use vstd::prelude::*;

use crate::execution::ExecutionAdapter;
use crate::text;
use crate::tool;
use crate::tool::{
    RouteModel, ToolAdapter, ToolAdapterError, ToolFailure, ToolHandler, ToolOperation,
    ToolOperationModel, ToolOutput,
};

verus! {

/// A task is shown every route whose tool it was granted.
pub proof fn law_every_granted_route_is_shown(
    routes: Seq<RouteModel>,
    tools: Seq<Seq<char>>,
    i: int,
)
    requires
        0 <= i < routes.len(),
        tools.contains(routes[i].tool),
    ensures
        tool::granted_routes(routes, tools).contains(routes[i].route),
    decreases routes.len(),
{
    let rest = routes.drop_last();
    let all = tool::granted_routes(routes, tools);
    if i == routes.len() - 1 {
        assert(all.last() == routes[i].route);
        assert(all[all.len() - 1] == routes[i].route);
    } else {
        law_every_granted_route_is_shown(rest, tools, i);
        let before = tool::granted_routes(rest, tools);
        let k = choose|k: int| 0 <= k < before.len() && before[k] == routes[i].route;
        assert(all[k] == routes[i].route);
    }
}

/// What a task is shown does not depend on the order, or on repetitions, of its tools.
pub proof fn law_the_order_of_tools_does_not_matter(
    routes: Seq<RouteModel>,
    a: Seq<Seq<char>>,
    b: Seq<Seq<char>>,
)
    requires
        forall|name: Seq<char>| a.contains(name) == b.contains(name),
    ensures
        tool::granted_routes(routes, a) == tool::granted_routes(routes, b),
    decreases routes.len(),
{
    if routes.len() > 0 {
        law_the_order_of_tools_does_not_matter(routes.drop_last(), a, b);
    }
}

/// A task with no tools is shown no routes, and one with more tools is shown no fewer.
pub proof fn law_more_tools_show_more_routes(
    routes: Seq<RouteModel>,
    fewer: Seq<Seq<char>>,
    more: Seq<Seq<char>>,
    i: int,
)
    requires
        tool::routes_ordered(routes),
        forall|name: Seq<char>| fewer.contains(name) ==> more.contains(name),
        0 <= i < tool::granted_routes(routes, fewer).len(),
    ensures
        tool::granted_routes(routes, more).contains(tool::granted_routes(routes, fewer)[i]),
{
    tool::law_only_granted_routes_are_shown(routes, fewer, i);
    let name = tool::granted_routes(routes, fewer)[i];
    let k = choose|k: int| 0 <= k < routes.len() && routes[k].route == name;
    lemma_same_route(routes, name, k);
    law_every_granted_route_is_shown(routes, more, k);
}

proof fn lemma_same_route(routes: Seq<RouteModel>, name: Seq<char>, k: int)
    requires
        tool::routes_ordered(routes),
        0 <= k < routes.len(),
        routes[k].route == name,
    ensures
        tool::route_of(routes, name) == routes[k],
{
    tool::lemma_route_unique(routes, k);
}

/// The routes that a task is shown come in the order of their names, each once.
pub proof fn law_shown_routes_are_in_order(
    routes: Seq<RouteModel>,
    tools: Seq<Seq<char>>,
    i: int,
    j: int,
)
    requires
        tool::routes_ordered(routes),
        0 <= i < j < tool::granted_routes(routes, tools).len(),
    ensures
        text::bytes_before(
            text::utf8(tool::granted_routes(routes, tools)[i]),
            text::utf8(tool::granted_routes(routes, tools)[j]),
        ),
    decreases routes.len(),
{
    let rest = routes.drop_last();
    let all = tool::granted_routes(routes, tools);
    let before = tool::granted_routes(rest, tools);
    assert(tool::routes_ordered(rest));
    if j < before.len() {
        law_shown_routes_are_in_order(rest, tools, i, j);
    } else {
        let k = tool::lemma_granted(rest, tools, i);
        assert(routes[k].route == all[i]);
        assert(all[j] == routes.last().route);
        assert(text::bytes_before(
            text::utf8(routes[k].route),
            text::utf8(routes[routes.len() - 1].route),
        ));
    }
}

/// Arguments count together as they count apart.
pub proof fn law_argument_bytes_add_up(a: Seq<Seq<char>>, b: Seq<Seq<char>>, one: Seq<char>)
    ensures
        tool::total_bytes(a + b) == tool::total_bytes(a) + tool::total_bytes(b),
        tool::total_bytes(seq![one]) == text::utf8(one).len(),
        tool::total_bytes(Seq::<Seq<char>>::empty()) == 0,
    decreases b.len(),
{
    reveal_with_fuel(tool::total_bytes, 2);
    assert(seq![one].drop_last() =~= Seq::<Seq<char>>::empty());
    if b.len() == 0 {
        assert(a + b =~= a);
    } else {
        assert((a + b).drop_last() =~= a + b.drop_last());
        law_argument_bytes_add_up(a, b.drop_last(), one);
    }
}

/// Arguments are good exactly where they are at most 64, each of at most 4096 bytes and free of
/// NUL, and of at most 65536 bytes together.
pub proof fn law_arguments_are_bounded(arguments: Seq<Seq<char>>)
    ensures
        tool::valid_arguments(arguments) <==> arguments.len() <= 64 && tool::total_bytes(arguments)
            <= 65_536 && (forall|i: int|
            0 <= i < arguments.len() ==> text::utf8(#[trigger] arguments[i]).len() <= 4_096
                && !text::utf8(arguments[i]).contains(0u8)),
{
}

/// Some of good arguments, in their order, are good arguments.
pub proof fn law_fewer_arguments_are_good_too(arguments: Seq<Seq<char>>, n: int)
    requires
        tool::valid_arguments(arguments),
        0 <= n <= arguments.len(),
    ensures
        tool::valid_arguments(arguments.take(n)),
{
    tool::lemma_total_bytes_prefix(arguments, n);
}

/// What a catalog prepares for a registered route and good arguments is the call of that route,
/// under the tool and the action that it was registered with, with these arguments.
pub proof fn law_prepared_calls_keep_their_scope(
    routes: Seq<RouteModel>,
    i: int,
    arguments: Seq<Seq<char>>,
)
    requires
        tool::routes_ordered(routes),
        0 <= i < routes.len(),
        tool::valid_arguments(arguments),
    ensures
        tool::prepared(routes, routes[i].route, arguments) == Ok::<
            ToolOperationModel,
            ToolAdapterError,
        >(
            ToolOperationModel {
                route: routes[i].route,
                tool: routes[i].tool,
                action: routes[i].action,
                arguments,
            },
        ),
{
    tool::lemma_route_unique(routes, i);
}

/// A route that is not registered is not found, whatever the arguments; bad arguments are refused
/// as such for one that is.
pub proof fn law_calls_are_prepared_for_registered_routes_alone(
    routes: Seq<RouteModel>,
    route: Seq<char>,
    arguments: Seq<Seq<char>>,
)
    ensures
        (forall|i: int| 0 <= i < routes.len() ==> (#[trigger] routes[i]).route != route)
            ==> tool::prepared(routes, route, arguments) == Err::<
            ToolOperationModel,
            ToolAdapterError,
        >(ToolAdapterError::RouteNotFound),
        (exists|i: int| 0 <= i < routes.len() && (#[trigger] routes[i]).route == route)
            && !tool::valid_arguments(arguments) ==> tool::prepared(routes, route, arguments)
            == Err::<ToolOperationModel, ToolAdapterError>(ToolAdapterError::InvalidArguments),
{
}

/// A registration adds its route and keeps the others as they are, in the order of their names.
pub proof fn law_registrations_add_one_route(routes: Seq<RouteModel>, added: RouteModel, i: int)
    requires
        tool::routes_ordered(routes),
        !tool::has_route(routes, added.route),
    ensures
        tool::with_route(routes, added).len() == routes.len() + 1,
        tool::with_route(routes, added).contains(added),
        0 <= i < routes.len() ==> tool::with_route(routes, added).contains(routes[i]),
        0 <= i < routes.len() + 1 ==> tool::with_route(routes, added)[i] == added
            || routes.contains(tool::with_route(routes, added)[i]),
        tool::routes_ordered(tool::with_route(routes, added)),
{
    tool::lemma_rank(routes, added.route);
    tool::lemma_with_route_ordered(routes, added);
    let at = tool::route_rank(routes, added.route);
    let all = tool::with_route(routes, added);
    assert(all[at] == added);
    if 0 <= i < at {
        assert(all[i] == routes[i]);
    } else if at <= i < routes.len() {
        assert(all[i + 1] == routes[i]);
    }
    if at < i < all.len() {
        assert(all[i] == routes[i - 1]);
    }
}

/// A call runs the handler of its route and leaves every other handler as it was.
pub proof fn law_calls_run_one_handler<H: ToolHandler>(
    before: Map<Seq<char>, H>,
    after: Map<Seq<char>, H>,
    route: Seq<char>,
    arguments: Seq<Seq<char>>,
    answer: Result<ToolOutput, ToolFailure>,
    other: Seq<char>,
)
    requires
        tool::handler_ran(before, after, route, arguments, answer),
        other != route,
    ensures
        after.contains_key(other) <==> before.contains_key(other),
        after[other] == before[other],
        before[route].answers(arguments, answer),
        before[route].leads_to(arguments, answer, after[route].state()),
{
}

/// A caller gets the output as it is. Of a failure it learns no more than whether the budget was
/// used up.
pub proof fn law_failures_are_redacted(
    output: ToolOutput,
    a: ToolFailure,
    b: ToolFailure,
)
    ensures
        tool::redacted(Ok(output)) == Ok::<ToolOutput, ToolAdapterError>(output),
        a.over_budget() ==> tool::redacted(Err(a)) == Err::<ToolOutput, ToolAdapterError>(
            ToolAdapterError::BudgetExceeded,
        ),
        !a.over_budget() ==> tool::redacted(Err(a)) == Err::<ToolOutput, ToolAdapterError>(
            ToolAdapterError::HandlerFailed,
        ),
        a.over_budget() == b.over_budget() ==> tool::redacted(Err(a)) == tool::redacted(Err(b)),
{
}

/// An adapter runs a handler only for good arguments, a registered route and the scope that it was
/// registered with; otherwise no handler runs, and the first of these is told. The routes stay.
pub proof fn law_only_registered_calls_run<H: ToolHandler>(
    before: ToolAdapter<H>,
    operation: ToolOperation,
    after: ToolAdapter<H>,
    r: Result<ToolOutput, ToolAdapterError>,
    other: Seq<char>,
)
    requires
        <ToolAdapter<H> as ExecutionAdapter<ToolOperation>>::performs(before, operation, after, r),
        before.wf(),
        other != operation@.route,
    ensures
        after@ == before@ && after.wf(),
        after.handlers()[other] == before.handlers()[other],
        !tool::valid_arguments(operation@.arguments) ==> r == Err::<ToolOutput, ToolAdapterError>(
            ToolAdapterError::InvalidArguments,
        ) && after.handlers() == before.handlers(),
        tool::valid_arguments(operation@.arguments) && !tool::has_route(
            before@,
            operation@.route,
        ) ==> r == Err::<ToolOutput, ToolAdapterError>(ToolAdapterError::RouteNotFound)
            && after.handlers() == before.handlers(),
        tool::valid_arguments(operation@.arguments) && tool::has_route(before@, operation@.route)
            && (tool::route_of(before@, operation@.route).tool != operation@.tool || tool::route_of(
            before@,
            operation@.route,
        ).action != operation@.action) ==> r == Err::<ToolOutput, ToolAdapterError>(
            ToolAdapterError::ScopeMismatch,
        ) && after.handlers() == before.handlers(),
        r is Ok ==> before.handlers()[operation@.route].answers(
            operation@.arguments,
            Ok(r->Ok_0),
        ) && tool::has_route(before@, operation@.route),
{
}

} // verus!
