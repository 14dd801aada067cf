use vstd::prelude::*;
use crate::language::ast::SpecAst;
use super::executor::{XRouteV, XV, xkey_index, xroutes_insert, block_actions, x_loads, x_node, x_nodes, x_program, x_execute};

verus! {

/// No two routes share a key.
pub open spec fn xkeys_unique(routes: Seq<XRouteV>) -> bool {
    forall|i: int, j: int| 0 <= i < j < routes.len() ==> routes[i].key != routes[j].key
}

/// Adding a route keeps the keys apart, and afterwards the route is the
/// one under its key; the other routes stay where they were.
pub proof fn lemma_xroutes_insert(routes: Seq<XRouteV>, r: XRouteV)
    requires
        xkeys_unique(routes),
    ensures
        xkeys_unique(xroutes_insert(routes, r)),
        xkey_index(xroutes_insert(routes, r), r.key) matches Some(i) && xroutes_insert(routes, r)[i] == r,
        forall|k: Seq<char>| k != r.key ==> xkey_index(xroutes_insert(routes, r), k) == xkey_index(routes, k)
            && (xkey_index(routes, k) matches Some(i) ==> xroutes_insert(routes, r)[i] == routes[i]),
{
    reveal(xkey_index);
    let out = xroutes_insert(routes, r);
    match xkey_index(routes, r.key) {
        Some(i) => {
            assert(out == routes.update(i, r));
            assert(xkey_index(out, r.key) == Some(i)) by {
                let c = choose|x: int| 0 <= x < out.len() && out[x].key == r.key && forall|j: int| 0 <= j < x ==> out[j].key != r.key;
                assert(out[i].key == r.key);
                assert forall|j: int| 0 <= j < i implies out[j].key != r.key by {
                    assert(routes[j].key != r.key);
                }
                if c < i {
                    assert(routes[c].key == r.key);
                    assert(routes[i].key == r.key);
                }
                if c > i {
                    assert(out[i].key != r.key);
                }
            }
        },
        None => {
            assert(out == routes.push(r));
            assert(xkey_index(out, r.key) == Some(routes.len() as int)) by {
                let c = choose|x: int| 0 <= x < out.len() && out[x].key == r.key && forall|j: int| 0 <= j < x ==> out[j].key != r.key;
                assert(out[routes.len() as int].key == r.key);
                if c < routes.len() {
                    assert(routes[c].key == r.key);
                }
            }
        },
    }
    assert forall|k: Seq<char>| k != r.key implies xkey_index(out, k) == xkey_index(routes, k)
        && (xkey_index(routes, k) matches Some(i) ==> out[i] == routes[i]) by {
        assert forall|x: int| 0 <= x < routes.len() implies (out[x].key == k <==> routes[x].key == k) by {
            if out[x] != routes[x] {
                assert(out[x] == r);
            }
        }
        if exists|x: int| 0 <= x < routes.len() && routes[x].key == k {
            let x = choose|x: int| 0 <= x < routes.len() && routes[x].key == k;
            assert(out[x].key == k);
        }
        if exists|x: int| 0 <= x < out.len() && out[x].key == k {
            let x = choose|x: int| 0 <= x < out.len() && out[x].key == k;
            if x == routes.len() {
                assert(out[x] == r);
            }
            assert(routes[x].key == k);
        }
    }
}

/// Adding the routes of statements keeps their keys apart.
pub proof fn lemma_x_nodes_unique(stmts: Seq<SpecAst>, i: int, v: XV)
    requires
        xkeys_unique(v.routes),
    ensures
        xkeys_unique(x_nodes(stmts, i, v).1.routes),
    decreases i,
{
    if i > 0 {
        lemma_x_nodes_unique(stmts, i - 1, v);
        let v1 = x_nodes(stmts, i - 1, v).1;
        match stmts[i - 1] {
            SpecAst::Route { path, method, body, on_error } => {
                let key = method + ":"@ + path;
                lemma_xroutes_insert(v1.routes, XRouteV { key, path, actions: block_actions(*body), handler: None });
                match on_error {
                    Some(h) => match *h {
                        SpecAst::ErrorHandlerBlock { error_var, body: hb } => {
                            lemma_xroutes_insert(v1.routes, XRouteV {
                                key,
                                path,
                                actions: block_actions(*body),
                                handler: Some((error_var, block_actions(*hb))),
                            });
                        },
                        _ => {},
                    },
                    None => {},
                }
            },
            _ => {},
        }
    }
}

/// Loading plugins leaves the routes alone.
pub proof fn lemma_x_loads_routes(stmts: Seq<SpecAst>, i: int, v: XV, loads: Seq<Result<(), Seq<char>>>, k0: nat)
    ensures
        x_loads(stmts, i, v, loads, k0).1.routes == v.routes,
    decreases i,
{
    if i > 0 {
        lemma_x_loads_routes(stmts, i - 1, v, loads, k0);
    }
}

/// However a server is configured from a syntax tree, whatever the plugin
/// host answers, no two of its routes share a key (method and path), as in
/// a map from keys to routes.
pub proof fn lemma_x_execute_keys_unique(v: XV, ast: SpecAst, loads: Seq<Result<(), Seq<char>>>, k0: nat)
    requires
        xkeys_unique(v.routes),
    ensures
        xkeys_unique(x_execute(v, ast, loads, k0).1.routes),
{
    let stmts = match ast {
        SpecAst::Program(s) => s,
        SpecAst::ServerConfig { routes, .. } => routes,
        _ => Seq::empty(),
    };
    assert forall|w: XV| w.routes == v.routes implies xkeys_unique(#[trigger] x_program(w, stmts, loads, k0).1.routes) by {
        lemma_x_loads_routes(stmts, stmts.len() as int, w, loads, k0);
        let w1 = x_loads(stmts, stmts.len() as int, w, loads, k0).1;
        lemma_x_nodes_unique(stmts, stmts.len() as int, w1);
    }
}

} // verus!
