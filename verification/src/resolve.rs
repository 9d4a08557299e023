//! What the module resolver answers.
//!
//! Resolution itself is the bundler's work. The library reads a snapshot of
//! its answers for dynamic imports: which module a request resolves to when
//! made from a given module. A request without an answer does not resolve.

use vstd::prelude::*;

verus! {

/// One answer of the resolver: `request`, made from `origin`, leads to
/// `module`.
#[derive(Debug)]
pub struct Resolution {
    pub origin: u64,
    pub request: String,
    pub module: u64,
}

/// The answers of the resolver that a build has at hand.
#[derive(Debug)]
pub struct AssetContext {
    pub resolutions: Vec<Resolution>,
}

/// Whether the answer is one for `request` made from `origin`.
pub open spec fn answers(resolution: Resolution, origin: u64, request: Seq<char>) -> bool {
    resolution.origin == origin && resolution.request@ == request
}

/// The module of the first answer among the first `upto` that is one for
/// `request` made from `origin`.
pub open spec fn resolve_among(
    resolutions: Seq<Resolution>,
    upto: nat,
    origin: u64,
    request: Seq<char>,
) -> Option<u64>
    decreases upto,
{
    if upto == 0 || upto > resolutions.len() {
        None
    } else {
        match resolve_among(resolutions, (upto - 1) as nat, origin, request) {
            Some(module) => Some(module),
            None => if answers(resolutions[upto - 1], origin, request) {
                Some(resolutions[upto - 1].module)
            } else {
                None
            },
        }
    }
}

/// The module that `request` resolves to from `origin`, if it resolves.
pub open spec fn resolve(context: AssetContext, origin: u64, request: Seq<char>) -> Option<u64> {
    resolve_among(context.resolutions@, context.resolutions@.len(), origin, request)
}

/// The pairs of request and module for the requests that resolve, in the
/// order of the requests.
pub open spec fn resolve_all(context: AssetContext, origin: u64, requests: Seq<Seq<char>>) -> Seq<
    (Seq<char>, u64),
>
    decreases requests.len(),
{
    if requests.len() == 0 {
        Seq::empty()
    } else {
        let earlier = resolve_all(context, origin, requests.drop_last());
        match resolve(context, origin, requests.last()) {
            Some(module) => earlier.push((requests.last(), module)),
            None => earlier,
        }
    }
}

/// Resolves a dynamic import of `request` made from `origin`.
pub fn esm_resolve(context: &AssetContext, origin: u64, request: &str) -> (module: Option<u64>)
    ensures
        module == resolve(*context, origin, request@),
{
    let wanted = request.to_owned();
    let mut i: usize = 0;
    while i < context.resolutions.len()
        invariant
            i <= context.resolutions@.len(),
            wanted@ == request@,
            resolve_among(context.resolutions@, i as nat, origin, request@) is None,
        decreases context.resolutions@.len() - i,
    {
        let resolution = &context.resolutions[i];
        if resolution.origin == origin && resolution.request == wanted {
            assert(resolve_among(context.resolutions@, (i + 1) as nat, origin, request@) == Some(
                resolution.module,
            ));
            proof {
                lemma_first_answer_stays(
                    context.resolutions@,
                    (i + 1) as nat,
                    context.resolutions@.len(),
                    origin,
                    request@,
                );
            }
            return Some(resolution.module);
        }
        i += 1;
    }
    None
}

/// Once an answer is found among the first `from`, later answers do not
/// change it.
proof fn lemma_first_answer_stays(
    resolutions: Seq<Resolution>,
    from: nat,
    upto: nat,
    origin: u64,
    request: Seq<char>,
)
    requires
        from <= upto <= resolutions.len(),
        resolve_among(resolutions, from, origin, request) is Some,
    ensures
        resolve_among(resolutions, upto, origin, request) == resolve_among(
            resolutions,
            from,
            origin,
            request,
        ),
    decreases upto,
{
    if from < upto {
        lemma_first_answer_stays(resolutions, from, (upto - 1) as nat, origin, request);
    }
}

/// Resolution goes request by request: the pairs for a list of requests are
/// the pairs for its front followed by the pairs for its back.
pub proof fn lemma_resolve_all_concat(
    context: AssetContext,
    origin: u64,
    front: Seq<Seq<char>>,
    back: Seq<Seq<char>>,
)
    ensures
        resolve_all(context, origin, front + back) == resolve_all(context, origin, front)
            + resolve_all(context, origin, back),
    decreases back.len(),
{
    if back.len() == 0 {
        assert(front + back =~= front);
        assert(resolve_all(context, origin, front) + resolve_all(context, origin, back)
            =~= resolve_all(context, origin, front));
    } else {
        lemma_resolve_all_concat(context, origin, front, back.drop_last());
        assert((front + back).drop_last() =~= front + back.drop_last());
        assert((front + back).last() == back.last());
        let earlier = resolve_all(context, origin, front) + resolve_all(
            context,
            origin,
            back.drop_last(),
        );
        match resolve(context, origin, back.last()) {
            Some(module) => {
                assert(earlier.push((back.last(), module)) =~= resolve_all(context, origin, front)
                    + resolve_all(context, origin, back.drop_last()).push((back.last(), module)));
            },
            None => {},
        }
    }
}

/// A request that does not resolve leaves no pair and takes none away: the
/// requests before and after it resolve as they do without it.
pub proof fn lemma_unresolved_request_is_dropped(
    context: AssetContext,
    origin: u64,
    before: Seq<Seq<char>>,
    request: Seq<char>,
    after: Seq<Seq<char>>,
)
    requires
        resolve(context, origin, request) is None,
    ensures
        resolve_all(context, origin, before + seq![request] + after) == resolve_all(
            context,
            origin,
            before,
        ) + resolve_all(context, origin, after),
{
    lemma_resolve_all_concat(context, origin, before + seq![request], after);
    lemma_resolve_all_concat(context, origin, before, seq![request]);
    assert(seq![request].drop_last() =~= Seq::<Seq<char>>::empty());
    assert(resolve_all(context, origin, seq![request]) =~= Seq::empty()) by {
        reveal_with_fuel(resolve_all, 2);
    }
    assert(resolve_all(context, origin, before) + Seq::<(Seq<char>, u64)>::empty()
        =~= resolve_all(context, origin, before));
}

/// A request that resolves leaves its pair between the pairs of the requests
/// before it and those of the requests after it.
pub proof fn lemma_resolved_request_is_kept(
    context: AssetContext,
    origin: u64,
    before: Seq<Seq<char>>,
    request: Seq<char>,
    after: Seq<Seq<char>>,
)
    requires
        resolve(context, origin, request) is Some,
    ensures
        resolve_all(context, origin, before + seq![request] + after) == resolve_all(
            context,
            origin,
            before,
        ).push((request, resolve(context, origin, request)->0)) + resolve_all(
            context,
            origin,
            after,
        ),
{
    lemma_resolve_all_concat(context, origin, before + seq![request], after);
    assert((before + seq![request]).drop_last() =~= before);
}

} // verus!
