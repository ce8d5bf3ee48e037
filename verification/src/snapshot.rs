//! The snapshot codec: the durable rendering of the server's aggregate as
//! one object with four arrays — workflows, actions, repository references
//! and build history — and its parser.
//!
//! `encode_server_data` and `parse_server_data` are exact inverses:
//! `lemma_snapshot_round_trip` proves that parsing an encoded aggregate
//! yields the same contents back, field for field.

use crate::codec::{
    enc_bool, enc_items, enc_list, enc_opt_str, enc_opt_u64, enc_str, expect_lit, is_digit,
    lemma_assoc, lemma_bool_rt, lemma_keyed_rt, lemma_list_rt, lemma_lit_rt, lemma_opt_str_rt,
    lemma_opt_u64_rt, lemma_skip_skip, lemma_str_rt, p_bool, p_opt_str, p_opt_u64, p_str,
    sp_bool, sp_items, sp_keyed, sp_list, sp_lit, sp_opt_str, sp_opt_u64, sp_str,
    element_codec_ok, w_bool, w_lit, w_opt_str, w_opt_u64, w_str,
};
use crate::graph::{BuildEdge, BuildEdgeView, BuildNode, BuildNodeView, NodeConfig, NodeConfigView};
use crate::store::{
    BuildRecord, BuildRecordView, ServerData, ServerDataView, StoredAction, StoredActionView,
    StoredRepo, StoredRepoView, StoredWorkflow, StoredWorkflowView,
};
use crate::text::{chars_of, string_from_chars};
use vstd::prelude::*;

verus! {

/// A quoted string, as a parser value.
pub open spec fn string_parser() -> spec_fn(Seq<char>) -> Option<(Seq<char>, int)> {
    |s: Seq<char>| sp_str(s)
}

/// A quoted string, as an encoder value.
pub open spec fn string_encoder() -> spec_fn(Seq<char>) -> Seq<char> {
    |v: Seq<char>| enc_str(v)
}

/// An optional string, as a parser value.
pub open spec fn opt_str_parser() -> spec_fn(Seq<char>) -> Option<(Option<Seq<char>>, int)> {
    |s: Seq<char>| sp_opt_str(s)
}

/// An optional number, as a parser value.
pub open spec fn opt_u64_parser() -> spec_fn(Seq<char>) -> Option<(Option<u64>, int)> {
    |s: Seq<char>| sp_opt_u64(s)
}

/// A boolean, as a parser value.
pub open spec fn bool_parser() -> spec_fn(Seq<char>) -> Option<(bool, int)> {
    |s: Seq<char>| sp_bool(s)
}

proof fn lemma_string_codec_ok(l: Seq<Seq<char>>)
    ensures
        element_codec_ok(l, string_parser(), string_encoder()),
{
    let f = string_parser();
    let enc = string_encoder();
    assert forall|v: Seq<char>, r2: Seq<char>| l.contains(v) implies #[trigger] f(enc(v) + r2)
        == Some::<(Seq<char>, int)>((v, enc(v).len() as int)) by {
        lemma_str_rt(v, r2);
    }
    assert forall|v: Seq<char>| l.contains(v) implies (#[trigger] enc(v)).len() > 0 && enc(v)[0]
        != ']' by {
        lemma_str_rt(v, Seq::<char>::empty());
        assert((enc_str(v) + Seq::<char>::empty())[0] == enc_str(v)[0]);
    }
}


fn p_keyed_str(input: &Vec<char>, pos: usize, key: &str) -> (r: Option<(String, usize)>)
    requires
        pos <= input@.len(),
    ensures
        match sp_keyed(input@.skip(pos as int), key@, string_parser()) {
            Some((v, n)) => r matches Some((rv, rp)) && rv@ == v && rp as int == pos + n && pos <= rp
                <= input@.len(),
            None => r is None,
        },
{
    proof {
        reveal(sp_keyed);
    }
    let ghost s = input@.skip(pos as int);
    let p0 = match expect_lit(input, pos, key) {
        Some(p) => p,
        None => {
            return None;
        },
    };
    proof {
        assert(input@.skip(p0 as int) =~= s.skip(p0 - pos));
        assert(string_parser()(s.skip(p0 - pos)) == sp_str(input@.skip(p0 as int)));
    }
    match p_str(input, p0) {
        Some((rv, rp)) => Some((rv, rp)),
        None => None,
    }
}


fn p_keyed_opt_str(input: &Vec<char>, pos: usize, key: &str) -> (r: Option<(Option<String>, usize)>)
    requires
        pos <= input@.len(),
    ensures
        match sp_keyed(input@.skip(pos as int), key@, opt_str_parser()) {
            Some((v, n)) => r matches Some((rv, rp)) && rv.deep_view() == v && rp as int == pos + n && pos <= rp
                <= input@.len(),
            None => r is None,
        },
{
    proof {
        reveal(sp_keyed);
    }
    let ghost s = input@.skip(pos as int);
    let p0 = match expect_lit(input, pos, key) {
        Some(p) => p,
        None => {
            return None;
        },
    };
    proof {
        assert(input@.skip(p0 as int) =~= s.skip(p0 - pos));
        assert(opt_str_parser()(s.skip(p0 - pos)) == sp_opt_str(input@.skip(p0 as int)));
    }
    match p_opt_str(input, p0) {
        Some((rv, rp)) => Some((rv, rp)),
        None => None,
    }
}


fn p_keyed_opt_u64(input: &Vec<char>, pos: usize, key: &str) -> (r: Option<(Option<u64>, usize)>)
    requires
        pos <= input@.len(),
    ensures
        match sp_keyed(input@.skip(pos as int), key@, opt_u64_parser()) {
            Some((v, n)) => r matches Some((rv, rp)) && rv == v && rp as int == pos + n && pos <= rp
                <= input@.len(),
            None => r is None,
        },
{
    proof {
        reveal(sp_keyed);
    }
    let ghost s = input@.skip(pos as int);
    let p0 = match expect_lit(input, pos, key) {
        Some(p) => p,
        None => {
            return None;
        },
    };
    proof {
        assert(input@.skip(p0 as int) =~= s.skip(p0 - pos));
        assert(opt_u64_parser()(s.skip(p0 - pos)) == sp_opt_u64(input@.skip(p0 as int)));
    }
    match p_opt_u64(input, p0) {
        Some((rv, rp)) => Some((rv, rp)),
        None => None,
    }
}


fn p_keyed_bool(input: &Vec<char>, pos: usize, key: &str) -> (r: Option<(bool, usize)>)
    requires
        pos <= input@.len(),
    ensures
        match sp_keyed(input@.skip(pos as int), key@, bool_parser()) {
            Some((v, n)) => r matches Some((rv, rp)) && rv == v && rp as int == pos + n && pos <= rp
                <= input@.len(),
            None => r is None,
        },
{
    proof {
        reveal(sp_keyed);
    }
    let ghost s = input@.skip(pos as int);
    let p0 = match expect_lit(input, pos, key) {
        Some(p) => p,
        None => {
            return None;
        },
    };
    proof {
        assert(input@.skip(p0 as int) =~= s.skip(p0 - pos));
        assert(bool_parser()(s.skip(p0 - pos)) == sp_bool(input@.skip(p0 as int)));
    }
    match p_bool(input, p0) {
        Some((rv, rp)) => Some((rv, rp)),
        None => None,
    }
}


/// The rendering of one such value.
pub open spec fn enc_edge(v: BuildEdgeView) -> Seq<char> {
    "{\"id\":"@ + (enc_str(v.id) + (",\"source\":"@ + (enc_str(v.source) + (",\"target\":"@ + (enc_str(v.target) + ("}"@))))))
}


/// One such value at the front of `s`.
pub open spec fn sp_edge(s: Seq<char>) -> Option<(BuildEdgeView, int)> {
    match sp_keyed(s, "{\"id\":"@, string_parser()) {
        None => None,
        Some((id, n0)) => {
        match sp_keyed(s.skip(n0), ",\"source\":"@, string_parser()) {
            None => None,
            Some((source, n1)) => {
            match sp_keyed(s.skip(n0 + n1), ",\"target\":"@, string_parser()) {
                None => None,
                Some((target, n2)) => {
                match sp_lit(s.skip(n0 + n1 + n2), "}"@) {
                    None => None,
                    Some(nz) => Some((BuildEdgeView { id, source, target }, n0 + n1 + n2 + nz)),
                }
            },
            }
        },
        }
    },
    }
}

/// One such value, as a parser value.
pub open spec fn edge_parser() -> spec_fn(Seq<char>) -> Option<(BuildEdgeView, int)> {
    |s: Seq<char>| sp_edge(s)
}

/// One such value, as an encoder value.
pub open spec fn edge_encoder() -> spec_fn(BuildEdgeView) -> Seq<char> {
    |v: BuildEdgeView| enc_edge(v)
}


/// Parsing an encoded value yields it back.
#[verifier::rlimit(100)]
pub proof fn lemma_edge_rt(v: BuildEdgeView, rest: Seq<char>)
    ensures
        sp_edge(enc_edge(v) + rest) == Some::<(BuildEdgeView, int)>(
            (v, enc_edge(v).len() as int),
        ),
        enc_edge(v).len() > 0,
        (enc_edge(v) + rest)[0] != ']',
{
    reveal_strlit("{\"id\":");
    let s = enc_edge(v) + rest;
    let e0 = enc_str(v.id);
    let e1 = enc_str(v.source);
    let e2 = enc_str(v.target);
    let t3 = "}"@ + rest;
    let t2 = ",\"target\":"@ + (e2 + t3);
    let t1 = ",\"source\":"@ + (e1 + t2);
    let t0 = "{\"id\":"@ + (e0 + t1);
    assert(s == t0) by {
        lemma_assoc("{\"id\":"@, e0 + (",\"source\":"@ + (e1 + (",\"target\":"@ + (e2 + ("}"@))))), rest);
        lemma_assoc(e0, ",\"source\":"@ + (e1 + (",\"target\":"@ + (e2 + ("}"@)))), rest);
        lemma_assoc(",\"source\":"@, e1 + (",\"target\":"@ + (e2 + ("}"@))), rest);
        lemma_assoc(e1, ",\"target\":"@ + (e2 + ("}"@)), rest);
        lemma_assoc(",\"target\":"@, e2 + ("}"@), rest);
        lemma_assoc(e2, "}"@, rest);
    }
    lemma_lit_rt("{\"id\":"@, e0 + t1);
    let m0 = ("{\"id\":"@.len() + e0.len()) as int;
    assert(sp_keyed(t0, "{\"id\":"@, string_parser()) == Some::<(Seq<char>, int)>((v.id, m0)) && t0.skip(m0) == t1 && t0.len() == m0 + t1.len()) by {
        lemma_str_rt(v.id, t1);
        assert(string_parser()(e0 + t1) == Some::<(Seq<char>, int)>((v.id, e0.len() as int)));
        lemma_keyed_rt("{\"id\":"@, string_parser(), v.id, e0, t1);
    }
    assert(s.skip(m0) == t1);
    let c0 = m0;
    let m1 = (",\"source\":"@.len() + e1.len()) as int;
    assert(sp_keyed(t1, ",\"source\":"@, string_parser()) == Some::<(Seq<char>, int)>((v.source, m1)) && t1.skip(m1) == t2 && t1.len() == m1 + t2.len()) by {
        lemma_str_rt(v.source, t2);
        assert(string_parser()(e1 + t2) == Some::<(Seq<char>, int)>((v.source, e1.len() as int)));
        lemma_keyed_rt(",\"source\":"@, string_parser(), v.source, e1, t2);
    }
    lemma_skip_skip(s, c0, m1);
    assert(s.skip(c0 + m1) == t2);
    let c1 = c0 + m1;
    let m2 = (",\"target\":"@.len() + e2.len()) as int;
    assert(sp_keyed(t2, ",\"target\":"@, string_parser()) == Some::<(Seq<char>, int)>((v.target, m2)) && t2.skip(m2) == t3 && t2.len() == m2 + t3.len()) by {
        lemma_str_rt(v.target, t3);
        assert(string_parser()(e2 + t3) == Some::<(Seq<char>, int)>((v.target, e2.len() as int)));
        lemma_keyed_rt(",\"target\":"@, string_parser(), v.target, e2, t3);
    }
    lemma_skip_skip(s, c1, m2);
    assert(s.skip(c1 + m2) == t3);
    let c2 = c1 + m2;
    lemma_lit_rt("}"@, rest);
    assert(s[0] == "{\"id\":"@[0]);
}


/// Writes one such value.
#[verifier::rlimit(100)]
pub fn w_edge(out: &mut Vec<char>, x: &BuildEdge)
    ensures
        final(out)@ == old(out)@ + enc_edge(x.deep_view()),
{
    w_lit(out, "{\"id\":");
    w_str(out, x.id.as_str());
    w_lit(out, ",\"source\":");
    w_str(out, x.source.as_str());
    w_lit(out, ",\"target\":");
    w_str(out, x.target.as_str());
    w_lit(out, "}");
    proof {
        lemma_assoc(old(out)@ + "{\"id\":"@ + enc_str(x.deep_view().id) + ",\"source\":"@ + enc_str(x.deep_view().source) + ",\"target\":"@, enc_str(x.deep_view().target), "}"@);
        lemma_assoc(old(out)@ + "{\"id\":"@ + enc_str(x.deep_view().id) + ",\"source\":"@ + enc_str(x.deep_view().source), ",\"target\":"@, enc_str(x.deep_view().target) + ("}"@));
        lemma_assoc(old(out)@ + "{\"id\":"@ + enc_str(x.deep_view().id) + ",\"source\":"@, enc_str(x.deep_view().source), ",\"target\":"@ + (enc_str(x.deep_view().target) + ("}"@)));
        lemma_assoc(old(out)@ + "{\"id\":"@ + enc_str(x.deep_view().id), ",\"source\":"@, enc_str(x.deep_view().source) + (",\"target\":"@ + (enc_str(x.deep_view().target) + ("}"@))));
        lemma_assoc(old(out)@ + "{\"id\":"@, enc_str(x.deep_view().id), ",\"source\":"@ + (enc_str(x.deep_view().source) + (",\"target\":"@ + (enc_str(x.deep_view().target) + ("}"@)))));
        lemma_assoc(old(out)@, "{\"id\":"@, enc_str(x.deep_view().id) + (",\"source\":"@ + (enc_str(x.deep_view().source) + (",\"target\":"@ + (enc_str(x.deep_view().target) + ("}"@))))));
        assert(out@ == old(out)@ + enc_edge(x.deep_view()));
    }
}


/// One such value at the cursor.
#[verifier::rlimit(100)]
pub fn p_edge(input: &Vec<char>, pos: usize) -> (r: Option<(BuildEdge, usize)>)
    requires
        pos <= input@.len(),
    ensures
        match sp_edge(input@.skip(pos as int)) {
            Some((v, n)) => r matches Some((rv, rp)) && rv.deep_view() == v && rp as int == pos + n
                && pos <= rp <= input@.len(),
            None => r is None,
        },
{
    let ghost s = input@.skip(pos as int);
    let (id, q0) = match p_keyed_str(input, pos, "{\"id\":") {
        Some(x) => x,
        None => {
            return None;
        },
    };
    proof { assert(input@.skip(q0 as int) =~= s.skip(q0 - pos)); }
    let (source, q1) = match p_keyed_str(input, q0, ",\"source\":") {
        Some(x) => x,
        None => {
            return None;
        },
    };
    proof { assert(input@.skip(q1 as int) =~= s.skip(q1 - pos)); }
    let (target, q2) = match p_keyed_str(input, q1, ",\"target\":") {
        Some(x) => x,
        None => {
            return None;
        },
    };
    proof { assert(input@.skip(q2 as int) =~= s.skip(q2 - pos)); }
    let qz = match expect_lit(input, q2, "}") {
        Some(p) => p,
        None => {
            return None;
        },
    };
    let rv = BuildEdge { id, source, target };
    Some((rv, qz))
}


/// The rendering of one node configuration, tagged by type.
pub open spec fn enc_config(v: NodeConfigView) -> Seq<char> {
    match v {
        NodeConfigView::Command { command, cwd } => "{\"type\":\"command\",\"command\":"@ + (enc_str(command) + (",\"cwd\":"@ + (enc_opt_str(cwd) + ("}"@)))),
        NodeConfigView::Script { script, shell } => "{\"type\":\"script\",\"script\":"@ + (enc_str(script) + (",\"shell\":"@ + (enc_str(shell) + ("}"@)))),
        NodeConfigView::Artifact { path } => "{\"type\":\"artifact\",\"path\":"@ + (enc_str(path) + ("}"@)),
        NodeConfigView::Release { tag, title, body, draft, prerelease } => "{\"type\":\"release\",\"tag\":"@ + (enc_str(tag) + (",\"title\":"@ + (enc_str(title) + (",\"body\":"@ + (enc_str(body) + (",\"draft\":"@ + (enc_bool(draft) + (",\"prerelease\":"@ + (enc_bool(prerelease) + ("}"@)))))))))),
        NodeConfigView::Other { kind } => "{\"type\":\"other\",\"kind\":"@ + (enc_str(kind) + ("}"@)),
    }
}


/// One node configuration at the front of `s`.
pub open spec fn sp_config(s: Seq<char>) -> Option<(NodeConfigView, int)> {
    if sp_lit(s, "{\"type\":\"command\",\"command\":"@) is Some {
        match sp_keyed(s, "{\"type\":\"command\",\"command\":"@, string_parser()) {
            None => None,
            Some((command, n0)) => {
            match sp_keyed(s.skip(n0), ",\"cwd\":"@, opt_str_parser()) {
                None => None,
                Some((cwd, n1)) => {
                match sp_lit(s.skip(n0 + n1), "}"@) {
                    None => None,
                    Some(nz) => Some((NodeConfigView::Command { command, cwd }, n0 + n1 + nz)),
                }
            },
            }
        },
        }
    } else if sp_lit(s, "{\"type\":\"script\",\"script\":"@) is Some {
        match sp_keyed(s, "{\"type\":\"script\",\"script\":"@, string_parser()) {
            None => None,
            Some((script, n0)) => {
            match sp_keyed(s.skip(n0), ",\"shell\":"@, string_parser()) {
                None => None,
                Some((shell, n1)) => {
                match sp_lit(s.skip(n0 + n1), "}"@) {
                    None => None,
                    Some(nz) => Some((NodeConfigView::Script { script, shell }, n0 + n1 + nz)),
                }
            },
            }
        },
        }
    } else if sp_lit(s, "{\"type\":\"artifact\",\"path\":"@) is Some {
        match sp_keyed(s, "{\"type\":\"artifact\",\"path\":"@, string_parser()) {
            None => None,
            Some((path, n0)) => {
            match sp_lit(s.skip(n0), "}"@) {
                None => None,
                Some(nz) => Some((NodeConfigView::Artifact { path }, n0 + nz)),
            }
        },
        }
    } else if sp_lit(s, "{\"type\":\"release\",\"tag\":"@) is Some {
        match sp_keyed(s, "{\"type\":\"release\",\"tag\":"@, string_parser()) {
            None => None,
            Some((tag, n0)) => {
            match sp_keyed(s.skip(n0), ",\"title\":"@, string_parser()) {
                None => None,
                Some((title, n1)) => {
                match sp_keyed(s.skip(n0 + n1), ",\"body\":"@, string_parser()) {
                    None => None,
                    Some((body, n2)) => {
                    match sp_keyed(s.skip(n0 + n1 + n2), ",\"draft\":"@, bool_parser()) {
                        None => None,
                        Some((draft, n3)) => {
                        match sp_keyed(s.skip(n0 + n1 + n2 + n3), ",\"prerelease\":"@, bool_parser()) {
                            None => None,
                            Some((prerelease, n4)) => {
                            match sp_lit(s.skip(n0 + n1 + n2 + n3 + n4), "}"@) {
                                None => None,
                                Some(nz) => Some((NodeConfigView::Release { tag, title, body, draft, prerelease }, n0 + n1 + n2 + n3 + n4 + nz)),
                            }
                        },
                        }
                    },
                    }
                },
                }
            },
            }
        },
        }
    } else if sp_lit(s, "{\"type\":\"other\",\"kind\":"@) is Some {
        match sp_keyed(s, "{\"type\":\"other\",\"kind\":"@, string_parser()) {
            None => None,
            Some((kind, n0)) => {
            match sp_lit(s.skip(n0), "}"@) {
                None => None,
                Some(nz) => Some((NodeConfigView::Other { kind }, n0 + nz)),
            }
        },
        }
    } else {
        None
    }
}

/// One node configuration, as a parser value.
pub open spec fn config_parser() -> spec_fn(Seq<char>) -> Option<(NodeConfigView, int)> {
    |s: Seq<char>| sp_config(s)
}


/// Parsing an encoded configuration yields it back.
#[verifier::rlimit(100)]
pub proof fn lemma_config_rt(v: NodeConfigView, rest: Seq<char>)
    ensures
        sp_config(enc_config(v) + rest) == Some::<(NodeConfigView, int)>(
            (v, enc_config(v).len() as int),
        ),
        enc_config(v).len() > 0,
        (enc_config(v) + rest)[0] != ']',
{
    reveal_strlit("{\"type\":\"command\",\"command\":");
    reveal_strlit("{\"type\":\"script\",\"script\":");
    reveal_strlit("{\"type\":\"artifact\",\"path\":");
    reveal_strlit("{\"type\":\"release\",\"tag\":");
    reveal_strlit("{\"type\":\"other\",\"kind\":");
    let s = enc_config(v) + rest;
    match v {
        NodeConfigView::Command { command, cwd } => {
            let e0 = enc_str(command);
            let e1 = enc_opt_str(cwd);
            let t2 = "}"@ + rest;
            let t1 = ",\"cwd\":"@ + (e1 + t2);
            let t0 = "{\"type\":\"command\",\"command\":"@ + (e0 + t1);
            assert(s == t0) by {
                lemma_assoc("{\"type\":\"command\",\"command\":"@, e0 + (",\"cwd\":"@ + (e1 + ("}"@))), rest);
                lemma_assoc(e0, ",\"cwd\":"@ + (e1 + ("}"@)), rest);
                lemma_assoc(",\"cwd\":"@, e1 + ("}"@), rest);
                lemma_assoc(e1, "}"@, rest);
            }
            lemma_lit_rt("{\"type\":\"command\",\"command\":"@, e0 + t1);
            let m0 = ("{\"type\":\"command\",\"command\":"@.len() + e0.len()) as int;
            assert(sp_keyed(t0, "{\"type\":\"command\",\"command\":"@, string_parser()) == Some::<(Seq<char>, int)>((command, m0)) && t0.skip(m0) == t1 && t0.len() == m0 + t1.len()) by {
                lemma_str_rt(command, t1);
                assert(string_parser()(e0 + t1) == Some::<(Seq<char>, int)>((command, e0.len() as int)));
                lemma_keyed_rt("{\"type\":\"command\",\"command\":"@, string_parser(), command, e0, t1);
            }
            assert(s.skip(m0) == t1);
            let c0 = m0;
            let m1 = (",\"cwd\":"@.len() + e1.len()) as int;
            assert(sp_keyed(t1, ",\"cwd\":"@, opt_str_parser()) == Some::<(Option<Seq<char>>, int)>((cwd, m1)) && t1.skip(m1) == t2 && t1.len() == m1 + t2.len()) by {
                lemma_opt_str_rt(cwd, t2);
                assert(opt_str_parser()(e1 + t2) == Some::<(Option<Seq<char>>, int)>((cwd, e1.len() as int)));
                lemma_keyed_rt(",\"cwd\":"@, opt_str_parser(), cwd, e1, t2);
            }
            lemma_skip_skip(s, c0, m1);
            assert(s.skip(c0 + m1) == t2);
            let c1 = c0 + m1;
            lemma_lit_rt("}"@, rest);
            assert(s[0] == "{\"type\":\"command\",\"command\":"@[0]);
        },
        NodeConfigView::Script { script, shell } => {
            let e0 = enc_str(script);
            let e1 = enc_str(shell);
            let t2 = "}"@ + rest;
            let t1 = ",\"shell\":"@ + (e1 + t2);
            let t0 = "{\"type\":\"script\",\"script\":"@ + (e0 + t1);
            assert(s == t0) by {
                lemma_assoc("{\"type\":\"script\",\"script\":"@, e0 + (",\"shell\":"@ + (e1 + ("}"@))), rest);
                lemma_assoc(e0, ",\"shell\":"@ + (e1 + ("}"@)), rest);
                lemma_assoc(",\"shell\":"@, e1 + ("}"@), rest);
                lemma_assoc(e1, "}"@, rest);
            }
            lemma_lit_rt("{\"type\":\"script\",\"script\":"@, e0 + t1);
            let m0 = ("{\"type\":\"script\",\"script\":"@.len() + e0.len()) as int;
            assert(sp_keyed(t0, "{\"type\":\"script\",\"script\":"@, string_parser()) == Some::<(Seq<char>, int)>((script, m0)) && t0.skip(m0) == t1 && t0.len() == m0 + t1.len()) by {
                lemma_str_rt(script, t1);
                assert(string_parser()(e0 + t1) == Some::<(Seq<char>, int)>((script, e0.len() as int)));
                lemma_keyed_rt("{\"type\":\"script\",\"script\":"@, string_parser(), script, e0, t1);
            }
            assert(s.skip(m0) == t1);
            let c0 = m0;
            let m1 = (",\"shell\":"@.len() + e1.len()) as int;
            assert(sp_keyed(t1, ",\"shell\":"@, string_parser()) == Some::<(Seq<char>, int)>((shell, m1)) && t1.skip(m1) == t2 && t1.len() == m1 + t2.len()) by {
                lemma_str_rt(shell, t2);
                assert(string_parser()(e1 + t2) == Some::<(Seq<char>, int)>((shell, e1.len() as int)));
                lemma_keyed_rt(",\"shell\":"@, string_parser(), shell, e1, t2);
            }
            lemma_skip_skip(s, c0, m1);
            assert(s.skip(c0 + m1) == t2);
            let c1 = c0 + m1;
            lemma_lit_rt("}"@, rest);
            assert(s[0] == "{\"type\":\"script\",\"script\":"@[0]);
            if sp_lit(s, "{\"type\":\"command\",\"command\":"@) is Some {
                assert(s.take("{\"type\":\"command\",\"command\":"@.len() as int)[9] == s[9]);
                assert(s[9] == "{\"type\":\"script\",\"script\":"@[9]);
                assert(false);
            }
        },
        NodeConfigView::Artifact { path } => {
            let e0 = enc_str(path);
            let t1 = "}"@ + rest;
            let t0 = "{\"type\":\"artifact\",\"path\":"@ + (e0 + t1);
            assert(s == t0) by {
                lemma_assoc("{\"type\":\"artifact\",\"path\":"@, e0 + ("}"@), rest);
                lemma_assoc(e0, "}"@, rest);
            }
            lemma_lit_rt("{\"type\":\"artifact\",\"path\":"@, e0 + t1);
            let m0 = ("{\"type\":\"artifact\",\"path\":"@.len() + e0.len()) as int;
            assert(sp_keyed(t0, "{\"type\":\"artifact\",\"path\":"@, string_parser()) == Some::<(Seq<char>, int)>((path, m0)) && t0.skip(m0) == t1 && t0.len() == m0 + t1.len()) by {
                lemma_str_rt(path, t1);
                assert(string_parser()(e0 + t1) == Some::<(Seq<char>, int)>((path, e0.len() as int)));
                lemma_keyed_rt("{\"type\":\"artifact\",\"path\":"@, string_parser(), path, e0, t1);
            }
            assert(s.skip(m0) == t1);
            let c0 = m0;
            lemma_lit_rt("}"@, rest);
            assert(s[0] == "{\"type\":\"artifact\",\"path\":"@[0]);
            if sp_lit(s, "{\"type\":\"command\",\"command\":"@) is Some {
                assert(s.take("{\"type\":\"command\",\"command\":"@.len() as int)[9] == s[9]);
                assert(s[9] == "{\"type\":\"artifact\",\"path\":"@[9]);
                assert(false);
            }
            if sp_lit(s, "{\"type\":\"script\",\"script\":"@) is Some {
                assert(s.take("{\"type\":\"script\",\"script\":"@.len() as int)[9] == s[9]);
                assert(s[9] == "{\"type\":\"artifact\",\"path\":"@[9]);
                assert(false);
            }
        },
        NodeConfigView::Release { tag, title, body, draft, prerelease } => {
            let e0 = enc_str(tag);
            let e1 = enc_str(title);
            let e2 = enc_str(body);
            let e3 = enc_bool(draft);
            let e4 = enc_bool(prerelease);
            let t5 = "}"@ + rest;
            let t4 = ",\"prerelease\":"@ + (e4 + t5);
            let t3 = ",\"draft\":"@ + (e3 + t4);
            let t2 = ",\"body\":"@ + (e2 + t3);
            let t1 = ",\"title\":"@ + (e1 + t2);
            let t0 = "{\"type\":\"release\",\"tag\":"@ + (e0 + t1);
            assert(s == t0) by {
                lemma_assoc("{\"type\":\"release\",\"tag\":"@, e0 + (",\"title\":"@ + (e1 + (",\"body\":"@ + (e2 + (",\"draft\":"@ + (e3 + (",\"prerelease\":"@ + (e4 + ("}"@))))))))), rest);
                lemma_assoc(e0, ",\"title\":"@ + (e1 + (",\"body\":"@ + (e2 + (",\"draft\":"@ + (e3 + (",\"prerelease\":"@ + (e4 + ("}"@)))))))), rest);
                lemma_assoc(",\"title\":"@, e1 + (",\"body\":"@ + (e2 + (",\"draft\":"@ + (e3 + (",\"prerelease\":"@ + (e4 + ("}"@))))))), rest);
                lemma_assoc(e1, ",\"body\":"@ + (e2 + (",\"draft\":"@ + (e3 + (",\"prerelease\":"@ + (e4 + ("}"@)))))), rest);
                lemma_assoc(",\"body\":"@, e2 + (",\"draft\":"@ + (e3 + (",\"prerelease\":"@ + (e4 + ("}"@))))), rest);
                lemma_assoc(e2, ",\"draft\":"@ + (e3 + (",\"prerelease\":"@ + (e4 + ("}"@)))), rest);
                lemma_assoc(",\"draft\":"@, e3 + (",\"prerelease\":"@ + (e4 + ("}"@))), rest);
                lemma_assoc(e3, ",\"prerelease\":"@ + (e4 + ("}"@)), rest);
                lemma_assoc(",\"prerelease\":"@, e4 + ("}"@), rest);
                lemma_assoc(e4, "}"@, rest);
            }
            lemma_lit_rt("{\"type\":\"release\",\"tag\":"@, e0 + t1);
            let m0 = ("{\"type\":\"release\",\"tag\":"@.len() + e0.len()) as int;
            assert(sp_keyed(t0, "{\"type\":\"release\",\"tag\":"@, string_parser()) == Some::<(Seq<char>, int)>((tag, m0)) && t0.skip(m0) == t1 && t0.len() == m0 + t1.len()) by {
                lemma_str_rt(tag, t1);
                assert(string_parser()(e0 + t1) == Some::<(Seq<char>, int)>((tag, e0.len() as int)));
                lemma_keyed_rt("{\"type\":\"release\",\"tag\":"@, string_parser(), tag, e0, t1);
            }
            assert(s.skip(m0) == t1);
            let c0 = m0;
            let m1 = (",\"title\":"@.len() + e1.len()) as int;
            assert(sp_keyed(t1, ",\"title\":"@, string_parser()) == Some::<(Seq<char>, int)>((title, m1)) && t1.skip(m1) == t2 && t1.len() == m1 + t2.len()) by {
                lemma_str_rt(title, t2);
                assert(string_parser()(e1 + t2) == Some::<(Seq<char>, int)>((title, e1.len() as int)));
                lemma_keyed_rt(",\"title\":"@, string_parser(), title, e1, t2);
            }
            lemma_skip_skip(s, c0, m1);
            assert(s.skip(c0 + m1) == t2);
            let c1 = c0 + m1;
            let m2 = (",\"body\":"@.len() + e2.len()) as int;
            assert(sp_keyed(t2, ",\"body\":"@, string_parser()) == Some::<(Seq<char>, int)>((body, m2)) && t2.skip(m2) == t3 && t2.len() == m2 + t3.len()) by {
                lemma_str_rt(body, t3);
                assert(string_parser()(e2 + t3) == Some::<(Seq<char>, int)>((body, e2.len() as int)));
                lemma_keyed_rt(",\"body\":"@, string_parser(), body, e2, t3);
            }
            lemma_skip_skip(s, c1, m2);
            assert(s.skip(c1 + m2) == t3);
            let c2 = c1 + m2;
            let m3 = (",\"draft\":"@.len() + e3.len()) as int;
            assert(sp_keyed(t3, ",\"draft\":"@, bool_parser()) == Some::<(bool, int)>((draft, m3)) && t3.skip(m3) == t4 && t3.len() == m3 + t4.len()) by {
                lemma_bool_rt(draft, t4);
                assert(bool_parser()(e3 + t4) == Some::<(bool, int)>((draft, e3.len() as int)));
                lemma_keyed_rt(",\"draft\":"@, bool_parser(), draft, e3, t4);
            }
            lemma_skip_skip(s, c2, m3);
            assert(s.skip(c2 + m3) == t4);
            let c3 = c2 + m3;
            let m4 = (",\"prerelease\":"@.len() + e4.len()) as int;
            assert(sp_keyed(t4, ",\"prerelease\":"@, bool_parser()) == Some::<(bool, int)>((prerelease, m4)) && t4.skip(m4) == t5 && t4.len() == m4 + t5.len()) by {
                lemma_bool_rt(prerelease, t5);
                assert(bool_parser()(e4 + t5) == Some::<(bool, int)>((prerelease, e4.len() as int)));
                lemma_keyed_rt(",\"prerelease\":"@, bool_parser(), prerelease, e4, t5);
            }
            lemma_skip_skip(s, c3, m4);
            assert(s.skip(c3 + m4) == t5);
            let c4 = c3 + m4;
            lemma_lit_rt("}"@, rest);
            assert(s[0] == "{\"type\":\"release\",\"tag\":"@[0]);
            if sp_lit(s, "{\"type\":\"command\",\"command\":"@) is Some {
                assert(s.take("{\"type\":\"command\",\"command\":"@.len() as int)[9] == s[9]);
                assert(s[9] == "{\"type\":\"release\",\"tag\":"@[9]);
                assert(false);
            }
            if sp_lit(s, "{\"type\":\"script\",\"script\":"@) is Some {
                assert(s.take("{\"type\":\"script\",\"script\":"@.len() as int)[9] == s[9]);
                assert(s[9] == "{\"type\":\"release\",\"tag\":"@[9]);
                assert(false);
            }
            if sp_lit(s, "{\"type\":\"artifact\",\"path\":"@) is Some {
                assert(s.take("{\"type\":\"artifact\",\"path\":"@.len() as int)[9] == s[9]);
                assert(s[9] == "{\"type\":\"release\",\"tag\":"@[9]);
                assert(false);
            }
        },
        NodeConfigView::Other { kind } => {
            let e0 = enc_str(kind);
            let t1 = "}"@ + rest;
            let t0 = "{\"type\":\"other\",\"kind\":"@ + (e0 + t1);
            assert(s == t0) by {
                lemma_assoc("{\"type\":\"other\",\"kind\":"@, e0 + ("}"@), rest);
                lemma_assoc(e0, "}"@, rest);
            }
            lemma_lit_rt("{\"type\":\"other\",\"kind\":"@, e0 + t1);
            let m0 = ("{\"type\":\"other\",\"kind\":"@.len() + e0.len()) as int;
            assert(sp_keyed(t0, "{\"type\":\"other\",\"kind\":"@, string_parser()) == Some::<(Seq<char>, int)>((kind, m0)) && t0.skip(m0) == t1 && t0.len() == m0 + t1.len()) by {
                lemma_str_rt(kind, t1);
                assert(string_parser()(e0 + t1) == Some::<(Seq<char>, int)>((kind, e0.len() as int)));
                lemma_keyed_rt("{\"type\":\"other\",\"kind\":"@, string_parser(), kind, e0, t1);
            }
            assert(s.skip(m0) == t1);
            let c0 = m0;
            lemma_lit_rt("}"@, rest);
            assert(s[0] == "{\"type\":\"other\",\"kind\":"@[0]);
            if sp_lit(s, "{\"type\":\"command\",\"command\":"@) is Some {
                assert(s.take("{\"type\":\"command\",\"command\":"@.len() as int)[9] == s[9]);
                assert(s[9] == "{\"type\":\"other\",\"kind\":"@[9]);
                assert(false);
            }
            if sp_lit(s, "{\"type\":\"script\",\"script\":"@) is Some {
                assert(s.take("{\"type\":\"script\",\"script\":"@.len() as int)[9] == s[9]);
                assert(s[9] == "{\"type\":\"other\",\"kind\":"@[9]);
                assert(false);
            }
            if sp_lit(s, "{\"type\":\"artifact\",\"path\":"@) is Some {
                assert(s.take("{\"type\":\"artifact\",\"path\":"@.len() as int)[9] == s[9]);
                assert(s[9] == "{\"type\":\"other\",\"kind\":"@[9]);
                assert(false);
            }
            if sp_lit(s, "{\"type\":\"release\",\"tag\":"@) is Some {
                assert(s.take("{\"type\":\"release\",\"tag\":"@.len() as int)[9] == s[9]);
                assert(s[9] == "{\"type\":\"other\",\"kind\":"@[9]);
                assert(false);
            }
        },
    }
}


/// Writes one node configuration.
#[verifier::rlimit(100)]
pub fn w_config(out: &mut Vec<char>, x: &NodeConfig)
    ensures
        final(out)@ == old(out)@ + enc_config(x.deep_view()),
{
    match x {
        NodeConfig::Command { command, cwd } => {
            w_lit(out, "{\"type\":\"command\",\"command\":");
            w_str(out, command.as_str());
            w_lit(out, ",\"cwd\":");
            w_opt_str(out, cwd);
            w_lit(out, "}");
            proof {
                lemma_assoc(old(out)@ + "{\"type\":\"command\",\"command\":"@ + enc_str(command@) + ",\"cwd\":"@, enc_opt_str(cwd.deep_view()), "}"@);
                lemma_assoc(old(out)@ + "{\"type\":\"command\",\"command\":"@ + enc_str(command@), ",\"cwd\":"@, enc_opt_str(cwd.deep_view()) + ("}"@));
                lemma_assoc(old(out)@ + "{\"type\":\"command\",\"command\":"@, enc_str(command@), ",\"cwd\":"@ + (enc_opt_str(cwd.deep_view()) + ("}"@)));
                lemma_assoc(old(out)@, "{\"type\":\"command\",\"command\":"@, enc_str(command@) + (",\"cwd\":"@ + (enc_opt_str(cwd.deep_view()) + ("}"@))));
                assert(out@ == old(out)@ + enc_config(x.deep_view()));
            }
        },
        NodeConfig::Script { script, shell } => {
            w_lit(out, "{\"type\":\"script\",\"script\":");
            w_str(out, script.as_str());
            w_lit(out, ",\"shell\":");
            w_str(out, shell.as_str());
            w_lit(out, "}");
            proof {
                lemma_assoc(old(out)@ + "{\"type\":\"script\",\"script\":"@ + enc_str(script@) + ",\"shell\":"@, enc_str(shell@), "}"@);
                lemma_assoc(old(out)@ + "{\"type\":\"script\",\"script\":"@ + enc_str(script@), ",\"shell\":"@, enc_str(shell@) + ("}"@));
                lemma_assoc(old(out)@ + "{\"type\":\"script\",\"script\":"@, enc_str(script@), ",\"shell\":"@ + (enc_str(shell@) + ("}"@)));
                lemma_assoc(old(out)@, "{\"type\":\"script\",\"script\":"@, enc_str(script@) + (",\"shell\":"@ + (enc_str(shell@) + ("}"@))));
                assert(out@ == old(out)@ + enc_config(x.deep_view()));
            }
        },
        NodeConfig::Artifact { path } => {
            w_lit(out, "{\"type\":\"artifact\",\"path\":");
            w_str(out, path.as_str());
            w_lit(out, "}");
            proof {
                lemma_assoc(old(out)@ + "{\"type\":\"artifact\",\"path\":"@, enc_str(path@), "}"@);
                lemma_assoc(old(out)@, "{\"type\":\"artifact\",\"path\":"@, enc_str(path@) + ("}"@));
                assert(out@ == old(out)@ + enc_config(x.deep_view()));
            }
        },
        NodeConfig::Release { tag, title, body, draft, prerelease } => {
            w_lit(out, "{\"type\":\"release\",\"tag\":");
            w_str(out, tag.as_str());
            w_lit(out, ",\"title\":");
            w_str(out, title.as_str());
            w_lit(out, ",\"body\":");
            w_str(out, body.as_str());
            w_lit(out, ",\"draft\":");
            w_bool(out, *draft);
            w_lit(out, ",\"prerelease\":");
            w_bool(out, *prerelease);
            w_lit(out, "}");
            proof {
                lemma_assoc(old(out)@ + "{\"type\":\"release\",\"tag\":"@ + enc_str(tag@) + ",\"title\":"@ + enc_str(title@) + ",\"body\":"@ + enc_str(body@) + ",\"draft\":"@ + enc_bool(*draft) + ",\"prerelease\":"@, enc_bool(*prerelease), "}"@);
                lemma_assoc(old(out)@ + "{\"type\":\"release\",\"tag\":"@ + enc_str(tag@) + ",\"title\":"@ + enc_str(title@) + ",\"body\":"@ + enc_str(body@) + ",\"draft\":"@ + enc_bool(*draft), ",\"prerelease\":"@, enc_bool(*prerelease) + ("}"@));
                lemma_assoc(old(out)@ + "{\"type\":\"release\",\"tag\":"@ + enc_str(tag@) + ",\"title\":"@ + enc_str(title@) + ",\"body\":"@ + enc_str(body@) + ",\"draft\":"@, enc_bool(*draft), ",\"prerelease\":"@ + (enc_bool(*prerelease) + ("}"@)));
                lemma_assoc(old(out)@ + "{\"type\":\"release\",\"tag\":"@ + enc_str(tag@) + ",\"title\":"@ + enc_str(title@) + ",\"body\":"@ + enc_str(body@), ",\"draft\":"@, enc_bool(*draft) + (",\"prerelease\":"@ + (enc_bool(*prerelease) + ("}"@))));
                lemma_assoc(old(out)@ + "{\"type\":\"release\",\"tag\":"@ + enc_str(tag@) + ",\"title\":"@ + enc_str(title@) + ",\"body\":"@, enc_str(body@), ",\"draft\":"@ + (enc_bool(*draft) + (",\"prerelease\":"@ + (enc_bool(*prerelease) + ("}"@)))));
                lemma_assoc(old(out)@ + "{\"type\":\"release\",\"tag\":"@ + enc_str(tag@) + ",\"title\":"@ + enc_str(title@), ",\"body\":"@, enc_str(body@) + (",\"draft\":"@ + (enc_bool(*draft) + (",\"prerelease\":"@ + (enc_bool(*prerelease) + ("}"@))))));
                lemma_assoc(old(out)@ + "{\"type\":\"release\",\"tag\":"@ + enc_str(tag@) + ",\"title\":"@, enc_str(title@), ",\"body\":"@ + (enc_str(body@) + (",\"draft\":"@ + (enc_bool(*draft) + (",\"prerelease\":"@ + (enc_bool(*prerelease) + ("}"@)))))));
                lemma_assoc(old(out)@ + "{\"type\":\"release\",\"tag\":"@ + enc_str(tag@), ",\"title\":"@, enc_str(title@) + (",\"body\":"@ + (enc_str(body@) + (",\"draft\":"@ + (enc_bool(*draft) + (",\"prerelease\":"@ + (enc_bool(*prerelease) + ("}"@))))))));
                lemma_assoc(old(out)@ + "{\"type\":\"release\",\"tag\":"@, enc_str(tag@), ",\"title\":"@ + (enc_str(title@) + (",\"body\":"@ + (enc_str(body@) + (",\"draft\":"@ + (enc_bool(*draft) + (",\"prerelease\":"@ + (enc_bool(*prerelease) + ("}"@)))))))));
                lemma_assoc(old(out)@, "{\"type\":\"release\",\"tag\":"@, enc_str(tag@) + (",\"title\":"@ + (enc_str(title@) + (",\"body\":"@ + (enc_str(body@) + (",\"draft\":"@ + (enc_bool(*draft) + (",\"prerelease\":"@ + (enc_bool(*prerelease) + ("}"@))))))))));
                assert(out@ == old(out)@ + enc_config(x.deep_view()));
            }
        },
        NodeConfig::Other { kind } => {
            w_lit(out, "{\"type\":\"other\",\"kind\":");
            w_str(out, kind.as_str());
            w_lit(out, "}");
            proof {
                lemma_assoc(old(out)@ + "{\"type\":\"other\",\"kind\":"@, enc_str(kind@), "}"@);
                lemma_assoc(old(out)@, "{\"type\":\"other\",\"kind\":"@, enc_str(kind@) + ("}"@));
                assert(out@ == old(out)@ + enc_config(x.deep_view()));
            }
        },
    }
}


/// One node configuration at the cursor.
#[verifier::rlimit(100)]
pub fn p_config(input: &Vec<char>, pos: usize) -> (r: Option<(NodeConfig, usize)>)
    requires
        pos <= input@.len(),
    ensures
        match sp_config(input@.skip(pos as int)) {
            Some((v, n)) => r matches Some((rv, rp)) && rv.deep_view() == v && rp as int == pos + n
                && pos <= rp <= input@.len(),
            None => r is None,
        },
{
    let ghost s = input@.skip(pos as int);
    let t0 = expect_lit(input, pos, "{\"type\":\"command\",\"command\":");
    if t0.is_some() {
        let (command, q0_0) = match p_keyed_str(input, pos, "{\"type\":\"command\",\"command\":") {
            Some(x) => x,
            None => {
                return None;
            },
        };
        proof { assert(input@.skip(q0_0 as int) =~= s.skip(q0_0 - pos)); }
        let (cwd, q0_1) = match p_keyed_opt_str(input, q0_0, ",\"cwd\":") {
            Some(x) => x,
            None => {
                return None;
            },
        };
        proof { assert(input@.skip(q0_1 as int) =~= s.skip(q0_1 - pos)); }
        let qz = match expect_lit(input, q0_1, "}") {
            Some(p) => p,
            None => {
                return None;
            },
        };
        return Some((NodeConfig::Command { command, cwd }, qz));
    }
    let t1 = expect_lit(input, pos, "{\"type\":\"script\",\"script\":");
    if t1.is_some() {
        let (script, q1_0) = match p_keyed_str(input, pos, "{\"type\":\"script\",\"script\":") {
            Some(x) => x,
            None => {
                return None;
            },
        };
        proof { assert(input@.skip(q1_0 as int) =~= s.skip(q1_0 - pos)); }
        let (shell, q1_1) = match p_keyed_str(input, q1_0, ",\"shell\":") {
            Some(x) => x,
            None => {
                return None;
            },
        };
        proof { assert(input@.skip(q1_1 as int) =~= s.skip(q1_1 - pos)); }
        let qz = match expect_lit(input, q1_1, "}") {
            Some(p) => p,
            None => {
                return None;
            },
        };
        return Some((NodeConfig::Script { script, shell }, qz));
    }
    let t2 = expect_lit(input, pos, "{\"type\":\"artifact\",\"path\":");
    if t2.is_some() {
        let (path, q2_0) = match p_keyed_str(input, pos, "{\"type\":\"artifact\",\"path\":") {
            Some(x) => x,
            None => {
                return None;
            },
        };
        proof { assert(input@.skip(q2_0 as int) =~= s.skip(q2_0 - pos)); }
        let qz = match expect_lit(input, q2_0, "}") {
            Some(p) => p,
            None => {
                return None;
            },
        };
        return Some((NodeConfig::Artifact { path }, qz));
    }
    let t3 = expect_lit(input, pos, "{\"type\":\"release\",\"tag\":");
    if t3.is_some() {
        let (tag, q3_0) = match p_keyed_str(input, pos, "{\"type\":\"release\",\"tag\":") {
            Some(x) => x,
            None => {
                return None;
            },
        };
        proof { assert(input@.skip(q3_0 as int) =~= s.skip(q3_0 - pos)); }
        let (title, q3_1) = match p_keyed_str(input, q3_0, ",\"title\":") {
            Some(x) => x,
            None => {
                return None;
            },
        };
        proof { assert(input@.skip(q3_1 as int) =~= s.skip(q3_1 - pos)); }
        let (body, q3_2) = match p_keyed_str(input, q3_1, ",\"body\":") {
            Some(x) => x,
            None => {
                return None;
            },
        };
        proof { assert(input@.skip(q3_2 as int) =~= s.skip(q3_2 - pos)); }
        let (draft, q3_3) = match p_keyed_bool(input, q3_2, ",\"draft\":") {
            Some(x) => x,
            None => {
                return None;
            },
        };
        proof { assert(input@.skip(q3_3 as int) =~= s.skip(q3_3 - pos)); }
        let (prerelease, q3_4) = match p_keyed_bool(input, q3_3, ",\"prerelease\":") {
            Some(x) => x,
            None => {
                return None;
            },
        };
        proof { assert(input@.skip(q3_4 as int) =~= s.skip(q3_4 - pos)); }
        let qz = match expect_lit(input, q3_4, "}") {
            Some(p) => p,
            None => {
                return None;
            },
        };
        return Some((NodeConfig::Release { tag, title, body, draft, prerelease }, qz));
    }
    let t4 = expect_lit(input, pos, "{\"type\":\"other\",\"kind\":");
    if t4.is_some() {
        let (kind, q4_0) = match p_keyed_str(input, pos, "{\"type\":\"other\",\"kind\":") {
            Some(x) => x,
            None => {
                return None;
            },
        };
        proof { assert(input@.skip(q4_0 as int) =~= s.skip(q4_0 - pos)); }
        let qz = match expect_lit(input, q4_0, "}") {
            Some(p) => p,
            None => {
                return None;
            },
        };
        return Some((NodeConfig::Other { kind }, qz));
    }
    None
}


fn p_keyed_config(input: &Vec<char>, pos: usize, key: &str) -> (r: Option<(NodeConfig, usize)>)
    requires
        pos <= input@.len(),
    ensures
        match sp_keyed(input@.skip(pos as int), key@, config_parser()) {
            Some((v, n)) => r matches Some((rv, rp)) && rv.deep_view() == v && rp as int == pos + n
                && pos <= rp <= input@.len(),
            None => r is None,
        },
{
    proof {
        reveal(sp_keyed);
    }
    let ghost s = input@.skip(pos as int);
    let p0 = match expect_lit(input, pos, key) {
        Some(p) => p,
        None => {
            return None;
        },
    };
    proof {
        assert(input@.skip(p0 as int) =~= s.skip(p0 - pos));
        assert(config_parser()(s.skip(p0 - pos)) == sp_config(input@.skip(p0 as int)));
    }
    match p_config(input, p0) {
        Some((rv, rp)) => Some((rv, rp)),
        None => None,
    }
}


/// The rendering of one such value.
pub open spec fn enc_node(v: BuildNodeView) -> Seq<char> {
    "{\"id\":"@ + (enc_str(v.id) + (",\"name\":"@ + (enc_str(v.name) + (",\"config\":"@ + (enc_config(v.config) + ("}"@))))))
}


/// One such value at the front of `s`.
pub open spec fn sp_node(s: Seq<char>) -> Option<(BuildNodeView, int)> {
    match sp_keyed(s, "{\"id\":"@, string_parser()) {
        None => None,
        Some((id, n0)) => {
        match sp_keyed(s.skip(n0), ",\"name\":"@, string_parser()) {
            None => None,
            Some((name, n1)) => {
            match sp_keyed(s.skip(n0 + n1), ",\"config\":"@, config_parser()) {
                None => None,
                Some((config, n2)) => {
                match sp_lit(s.skip(n0 + n1 + n2), "}"@) {
                    None => None,
                    Some(nz) => Some((BuildNodeView { id, name, config }, n0 + n1 + n2 + nz)),
                }
            },
            }
        },
        }
    },
    }
}

/// One such value, as a parser value.
pub open spec fn node_parser() -> spec_fn(Seq<char>) -> Option<(BuildNodeView, int)> {
    |s: Seq<char>| sp_node(s)
}

/// One such value, as an encoder value.
pub open spec fn node_encoder() -> spec_fn(BuildNodeView) -> Seq<char> {
    |v: BuildNodeView| enc_node(v)
}


/// Parsing an encoded value yields it back.
#[verifier::rlimit(100)]
pub proof fn lemma_node_rt(v: BuildNodeView, rest: Seq<char>)
    ensures
        sp_node(enc_node(v) + rest) == Some::<(BuildNodeView, int)>(
            (v, enc_node(v).len() as int),
        ),
        enc_node(v).len() > 0,
        (enc_node(v) + rest)[0] != ']',
{
    reveal_strlit("{\"id\":");
    let s = enc_node(v) + rest;
    let e0 = enc_str(v.id);
    let e1 = enc_str(v.name);
    let e2 = enc_config(v.config);
    let t3 = "}"@ + rest;
    let t2 = ",\"config\":"@ + (e2 + t3);
    let t1 = ",\"name\":"@ + (e1 + t2);
    let t0 = "{\"id\":"@ + (e0 + t1);
    assert(s == t0) by {
        lemma_assoc("{\"id\":"@, e0 + (",\"name\":"@ + (e1 + (",\"config\":"@ + (e2 + ("}"@))))), rest);
        lemma_assoc(e0, ",\"name\":"@ + (e1 + (",\"config\":"@ + (e2 + ("}"@)))), rest);
        lemma_assoc(",\"name\":"@, e1 + (",\"config\":"@ + (e2 + ("}"@))), rest);
        lemma_assoc(e1, ",\"config\":"@ + (e2 + ("}"@)), rest);
        lemma_assoc(",\"config\":"@, e2 + ("}"@), rest);
        lemma_assoc(e2, "}"@, rest);
    }
    lemma_lit_rt("{\"id\":"@, e0 + t1);
    let m0 = ("{\"id\":"@.len() + e0.len()) as int;
    assert(sp_keyed(t0, "{\"id\":"@, string_parser()) == Some::<(Seq<char>, int)>((v.id, m0)) && t0.skip(m0) == t1 && t0.len() == m0 + t1.len()) by {
        lemma_str_rt(v.id, t1);
        assert(string_parser()(e0 + t1) == Some::<(Seq<char>, int)>((v.id, e0.len() as int)));
        lemma_keyed_rt("{\"id\":"@, string_parser(), v.id, e0, t1);
    }
    assert(s.skip(m0) == t1);
    let c0 = m0;
    let m1 = (",\"name\":"@.len() + e1.len()) as int;
    assert(sp_keyed(t1, ",\"name\":"@, string_parser()) == Some::<(Seq<char>, int)>((v.name, m1)) && t1.skip(m1) == t2 && t1.len() == m1 + t2.len()) by {
        lemma_str_rt(v.name, t2);
        assert(string_parser()(e1 + t2) == Some::<(Seq<char>, int)>((v.name, e1.len() as int)));
        lemma_keyed_rt(",\"name\":"@, string_parser(), v.name, e1, t2);
    }
    lemma_skip_skip(s, c0, m1);
    assert(s.skip(c0 + m1) == t2);
    let c1 = c0 + m1;
    let m2 = (",\"config\":"@.len() + e2.len()) as int;
    assert(sp_keyed(t2, ",\"config\":"@, config_parser()) == Some::<(NodeConfigView, int)>((v.config, m2)) && t2.skip(m2) == t3 && t2.len() == m2 + t3.len()) by {
        lemma_config_rt(v.config, t3);
        assert(config_parser()(e2 + t3) == Some::<(NodeConfigView, int)>((v.config, e2.len() as int)));
        lemma_keyed_rt(",\"config\":"@, config_parser(), v.config, e2, t3);
    }
    lemma_skip_skip(s, c1, m2);
    assert(s.skip(c1 + m2) == t3);
    let c2 = c1 + m2;
    lemma_lit_rt("}"@, rest);
    assert(s[0] == "{\"id\":"@[0]);
}


/// Writes one such value.
#[verifier::rlimit(100)]
pub fn w_node(out: &mut Vec<char>, x: &BuildNode)
    ensures
        final(out)@ == old(out)@ + enc_node(x.deep_view()),
{
    w_lit(out, "{\"id\":");
    w_str(out, x.id.as_str());
    w_lit(out, ",\"name\":");
    w_str(out, x.name.as_str());
    w_lit(out, ",\"config\":");
    w_config(out, &x.config);
    w_lit(out, "}");
    proof {
        lemma_assoc(old(out)@ + "{\"id\":"@ + enc_str(x.deep_view().id) + ",\"name\":"@ + enc_str(x.deep_view().name) + ",\"config\":"@, enc_config(x.deep_view().config), "}"@);
        lemma_assoc(old(out)@ + "{\"id\":"@ + enc_str(x.deep_view().id) + ",\"name\":"@ + enc_str(x.deep_view().name), ",\"config\":"@, enc_config(x.deep_view().config) + ("}"@));
        lemma_assoc(old(out)@ + "{\"id\":"@ + enc_str(x.deep_view().id) + ",\"name\":"@, enc_str(x.deep_view().name), ",\"config\":"@ + (enc_config(x.deep_view().config) + ("}"@)));
        lemma_assoc(old(out)@ + "{\"id\":"@ + enc_str(x.deep_view().id), ",\"name\":"@, enc_str(x.deep_view().name) + (",\"config\":"@ + (enc_config(x.deep_view().config) + ("}"@))));
        lemma_assoc(old(out)@ + "{\"id\":"@, enc_str(x.deep_view().id), ",\"name\":"@ + (enc_str(x.deep_view().name) + (",\"config\":"@ + (enc_config(x.deep_view().config) + ("}"@)))));
        lemma_assoc(old(out)@, "{\"id\":"@, enc_str(x.deep_view().id) + (",\"name\":"@ + (enc_str(x.deep_view().name) + (",\"config\":"@ + (enc_config(x.deep_view().config) + ("}"@))))));
        assert(out@ == old(out)@ + enc_node(x.deep_view()));
    }
}


/// One such value at the cursor.
#[verifier::rlimit(100)]
pub fn p_node(input: &Vec<char>, pos: usize) -> (r: Option<(BuildNode, usize)>)
    requires
        pos <= input@.len(),
    ensures
        match sp_node(input@.skip(pos as int)) {
            Some((v, n)) => r matches Some((rv, rp)) && rv.deep_view() == v && rp as int == pos + n
                && pos <= rp <= input@.len(),
            None => r is None,
        },
{
    let ghost s = input@.skip(pos as int);
    let (id, q0) = match p_keyed_str(input, pos, "{\"id\":") {
        Some(x) => x,
        None => {
            return None;
        },
    };
    proof { assert(input@.skip(q0 as int) =~= s.skip(q0 - pos)); }
    let (name, q1) = match p_keyed_str(input, q0, ",\"name\":") {
        Some(x) => x,
        None => {
            return None;
        },
    };
    proof { assert(input@.skip(q1 as int) =~= s.skip(q1 - pos)); }
    let (config, q2) = match p_keyed_config(input, q1, ",\"config\":") {
        Some(x) => x,
        None => {
            return None;
        },
    };
    proof { assert(input@.skip(q2 as int) =~= s.skip(q2 - pos)); }
    let qz = match expect_lit(input, q2, "}") {
        Some(p) => p,
        None => {
            return None;
        },
    };
    let rv = BuildNode { id, name, config };
    Some((rv, qz))
}


/// A list of such values, as a parser value.
pub open spec fn string_list_parser() -> spec_fn(Seq<char>) -> Option<(Seq<Seq<char>>, int)> {
    |s: Seq<char>| sp_list(s, string_parser())
}

fn p_string_items(input: &Vec<char>, pos: usize) -> (r: Option<(Vec<String>, usize)>)
    requires
        pos <= input@.len(),
    ensures
        match sp_items(input@.skip(pos as int), string_parser()) {
            Some((v, n)) => r matches Some((rv, rp)) && rv.deep_view() == v && rp as int == pos + n
                && pos <= rp <= input@.len(),
            None => r is None,
        },
    decreases input@.len() - pos,
{
    let ghost s = input@.skip(pos as int);
    let ghost f = string_parser();
    proof {
        assert(f(s) == sp_str(s));
    }
    let (v0, p1) = match p_str(input, pos) {
        Some(x) => x,
        None => {
            return None;
        },
    };
    if !(pos < p1 && p1 < input.len()) {
        return None;
    }
    proof {
        assert(s[p1 - pos] == input@[p1 as int]);
    }
    let c = input[p1];
    if c == ']' {
        let mut rv: Vec<String> = Vec::new();
        rv.push(v0);
        proof {
            assert(rv.deep_view() =~= seq![v0@]);
        }
        Some((rv, p1 + 1))
    } else if c == ',' {
        proof {
            assert(s.skip((p1 - pos) + 1) =~= input@.skip(p1 + 1));
        }
        match p_string_items(input, p1 + 1) {
            Some((mut l2, p2)) => {
                let ghost l2pre = l2.deep_view();
                l2.insert(0, v0);
                proof {
                    assert(l2.deep_view() =~= seq![v0@] + l2pre);
                }
                Some((l2, p2))
            },
            None => None,
        }
    } else {
        None
    }
}

fn p_string_list(input: &Vec<char>, pos: usize) -> (r: Option<(Vec<String>, usize)>)
    requires
        pos <= input@.len(),
    ensures
        match sp_list(input@.skip(pos as int), string_parser()) {
            Some((v, n)) => r matches Some((rv, rp)) && rv.deep_view() == v && rp as int == pos + n
                && pos <= rp <= input@.len(),
            None => r is None,
        },
{
    let ghost s = input@.skip(pos as int);
    if input.len() - pos < 2 {
        return None;
    }
    proof {
        assert(s[0] == input@[pos as int]);
        assert(s[1] == input@[pos + 1]);
    }
    if input[pos] != '[' {
        return None;
    }
    if input[pos + 1] == ']' {
        let rv: Vec<String> = Vec::new();
        proof {
            assert(rv.deep_view() =~= Seq::<Seq<char>>::empty());
        }
        return Some((rv, pos + 2));
    }
    proof {
        assert(s.skip(1) =~= input@.skip(pos + 1));
    }
    match p_string_items(input, pos + 1) {
        Some((rv, rp)) => Some((rv, rp)),
        None => None,
    }
}

fn p_keyed_string_list(input: &Vec<char>, pos: usize, key: &str) -> (r: Option<(Vec<String>, usize)>)
    requires
        pos <= input@.len(),
    ensures
        match sp_keyed(input@.skip(pos as int), key@, string_list_parser()) {
            Some((v, n)) => r matches Some((rv, rp)) && rv.deep_view() == v && rp as int == pos + n
                && pos <= rp <= input@.len(),
            None => r is None,
        },
{
    proof {
        reveal(sp_keyed);
    }
    let ghost s = input@.skip(pos as int);
    let p0 = match expect_lit(input, pos, key) {
        Some(p) => p,
        None => {
            return None;
        },
    };
    proof {
        assert(input@.skip(p0 as int) =~= s.skip(p0 - pos));
        assert(string_list_parser()(s.skip(p0 - pos)) == sp_list(input@.skip(p0 as int), string_parser()));
    }
    match p_string_list(input, p0) {
        Some((rv, rp)) => Some((rv, rp)),
        None => None,
    }
}

fn w_string_items(out: &mut Vec<char>, l: &Vec<String>, i: usize)
    requires
        i < l@.len(),
    ensures
        final(out)@ == old(out)@ + enc_items(l.deep_view().skip(i as int), string_encoder()),
    decreases l@.len() - i,
{
    let ghost dv = l.deep_view().skip(i as int);
    let ghost enc = string_encoder();
    proof {
        assert(dv[0] == l.deep_view()[i as int]);
        assert(enc(dv[0]) == enc_str(l@[i as int]@));
    }
    w_str(out, l[i].as_str());
    let n = l.len();
    if i < n - 1 {
        out.push(',');
        proof {
            assert(dv.drop_first() =~= l.deep_view().skip(i + 1));
        }
        w_string_items(out, l, i + 1);
        proof {
            assert(old(out)@ + enc_items(dv, enc) =~= out@);
        }
    } else {
        proof {
            assert(dv.len() == 1);
            assert(old(out)@ + enc_items(dv, enc) =~= out@);
        }
    }
}

fn w_string_list(out: &mut Vec<char>, l: &Vec<String>)
    ensures
        final(out)@ == old(out)@ + enc_list(l.deep_view(), string_encoder()),
{
    out.push('[');
    if l.len() > 0 {
        proof {
            assert(l.deep_view().skip(0) =~= l.deep_view());
        }
        w_string_items(out, l, 0);
    } else {
        proof {
            assert(l.deep_view().len() == 0);
        }
    }
    out.push(']');
    proof {
        assert(old(out)@ + enc_list(l.deep_view(), string_encoder()) =~= out@);
    }
}


/// A list of such values, as a parser value.
pub open spec fn node_list_parser() -> spec_fn(Seq<char>) -> Option<(Seq<BuildNodeView>, int)> {
    |s: Seq<char>| sp_list(s, node_parser())
}

fn p_node_items(input: &Vec<char>, pos: usize) -> (r: Option<(Vec<BuildNode>, usize)>)
    requires
        pos <= input@.len(),
    ensures
        match sp_items(input@.skip(pos as int), node_parser()) {
            Some((v, n)) => r matches Some((rv, rp)) && rv.deep_view() == v && rp as int == pos + n
                && pos <= rp <= input@.len(),
            None => r is None,
        },
    decreases input@.len() - pos,
{
    let ghost s = input@.skip(pos as int);
    let ghost f = node_parser();
    proof {
        assert(f(s) == sp_node(s));
    }
    let (v0, p1) = match p_node(input, pos) {
        Some(x) => x,
        None => {
            return None;
        },
    };
    if !(pos < p1 && p1 < input.len()) {
        return None;
    }
    proof {
        assert(s[p1 - pos] == input@[p1 as int]);
    }
    let c = input[p1];
    if c == ']' {
        let mut rv: Vec<BuildNode> = Vec::new();
        rv.push(v0);
        proof {
            assert(rv.deep_view() =~= seq![v0.deep_view()]);
        }
        Some((rv, p1 + 1))
    } else if c == ',' {
        proof {
            assert(s.skip((p1 - pos) + 1) =~= input@.skip(p1 + 1));
        }
        match p_node_items(input, p1 + 1) {
            Some((mut l2, p2)) => {
                let ghost l2pre = l2.deep_view();
                l2.insert(0, v0);
                proof {
                    assert(l2.deep_view() =~= seq![v0.deep_view()] + l2pre);
                }
                Some((l2, p2))
            },
            None => None,
        }
    } else {
        None
    }
}

fn p_node_list(input: &Vec<char>, pos: usize) -> (r: Option<(Vec<BuildNode>, usize)>)
    requires
        pos <= input@.len(),
    ensures
        match sp_list(input@.skip(pos as int), node_parser()) {
            Some((v, n)) => r matches Some((rv, rp)) && rv.deep_view() == v && rp as int == pos + n
                && pos <= rp <= input@.len(),
            None => r is None,
        },
{
    let ghost s = input@.skip(pos as int);
    if input.len() - pos < 2 {
        return None;
    }
    proof {
        assert(s[0] == input@[pos as int]);
        assert(s[1] == input@[pos + 1]);
    }
    if input[pos] != '[' {
        return None;
    }
    if input[pos + 1] == ']' {
        let rv: Vec<BuildNode> = Vec::new();
        proof {
            assert(rv.deep_view() =~= Seq::<BuildNodeView>::empty());
        }
        return Some((rv, pos + 2));
    }
    proof {
        assert(s.skip(1) =~= input@.skip(pos + 1));
    }
    match p_node_items(input, pos + 1) {
        Some((rv, rp)) => Some((rv, rp)),
        None => None,
    }
}

fn p_keyed_node_list(input: &Vec<char>, pos: usize, key: &str) -> (r: Option<(Vec<BuildNode>, usize)>)
    requires
        pos <= input@.len(),
    ensures
        match sp_keyed(input@.skip(pos as int), key@, node_list_parser()) {
            Some((v, n)) => r matches Some((rv, rp)) && rv.deep_view() == v && rp as int == pos + n
                && pos <= rp <= input@.len(),
            None => r is None,
        },
{
    proof {
        reveal(sp_keyed);
    }
    let ghost s = input@.skip(pos as int);
    let p0 = match expect_lit(input, pos, key) {
        Some(p) => p,
        None => {
            return None;
        },
    };
    proof {
        assert(input@.skip(p0 as int) =~= s.skip(p0 - pos));
        assert(node_list_parser()(s.skip(p0 - pos)) == sp_list(input@.skip(p0 as int), node_parser()));
    }
    match p_node_list(input, p0) {
        Some((rv, rp)) => Some((rv, rp)),
        None => None,
    }
}

fn w_node_items(out: &mut Vec<char>, l: &Vec<BuildNode>, i: usize)
    requires
        i < l@.len(),
    ensures
        final(out)@ == old(out)@ + enc_items(l.deep_view().skip(i as int), node_encoder()),
    decreases l@.len() - i,
{
    let ghost dv = l.deep_view().skip(i as int);
    let ghost enc = node_encoder();
    proof {
        assert(dv[0] == l.deep_view()[i as int]);
        assert(enc(dv[0]) == enc_node(l@[i as int].deep_view()));
    }
    w_node(out, &l[i]);
    let n = l.len();
    if i < n - 1 {
        out.push(',');
        proof {
            assert(dv.drop_first() =~= l.deep_view().skip(i + 1));
        }
        w_node_items(out, l, i + 1);
        proof {
            assert(old(out)@ + enc_items(dv, enc) =~= out@);
        }
    } else {
        proof {
            assert(dv.len() == 1);
            assert(old(out)@ + enc_items(dv, enc) =~= out@);
        }
    }
}

fn w_node_list(out: &mut Vec<char>, l: &Vec<BuildNode>)
    ensures
        final(out)@ == old(out)@ + enc_list(l.deep_view(), node_encoder()),
{
    out.push('[');
    if l.len() > 0 {
        proof {
            assert(l.deep_view().skip(0) =~= l.deep_view());
        }
        w_node_items(out, l, 0);
    } else {
        proof {
            assert(l.deep_view().len() == 0);
        }
    }
    out.push(']');
    proof {
        assert(old(out)@ + enc_list(l.deep_view(), node_encoder()) =~= out@);
    }
}


proof fn lemma_node_codec_ok(l: Seq<BuildNodeView>)
    ensures
        element_codec_ok(l, node_parser(), node_encoder()),
{
    let f = node_parser();
    let enc = node_encoder();
    assert forall|v: BuildNodeView, r2: Seq<char>| l.contains(v) implies #[trigger] f(enc(v) + r2)
        == Some::<(BuildNodeView, int)>((v, enc(v).len() as int)) by {
        lemma_node_rt(v, r2);
    }
    assert forall|v: BuildNodeView| l.contains(v) implies (#[trigger] enc(v)).len() > 0 && enc(v)[0]
        != ']' by {
        lemma_node_rt(v, Seq::<char>::empty());
        assert((enc_node(v) + Seq::<char>::empty())[0] == enc_node(v)[0]);
    }
}


/// A list of such values, as a parser value.
pub open spec fn edge_list_parser() -> spec_fn(Seq<char>) -> Option<(Seq<BuildEdgeView>, int)> {
    |s: Seq<char>| sp_list(s, edge_parser())
}

fn p_edge_items(input: &Vec<char>, pos: usize) -> (r: Option<(Vec<BuildEdge>, usize)>)
    requires
        pos <= input@.len(),
    ensures
        match sp_items(input@.skip(pos as int), edge_parser()) {
            Some((v, n)) => r matches Some((rv, rp)) && rv.deep_view() == v && rp as int == pos + n
                && pos <= rp <= input@.len(),
            None => r is None,
        },
    decreases input@.len() - pos,
{
    let ghost s = input@.skip(pos as int);
    let ghost f = edge_parser();
    proof {
        assert(f(s) == sp_edge(s));
    }
    let (v0, p1) = match p_edge(input, pos) {
        Some(x) => x,
        None => {
            return None;
        },
    };
    if !(pos < p1 && p1 < input.len()) {
        return None;
    }
    proof {
        assert(s[p1 - pos] == input@[p1 as int]);
    }
    let c = input[p1];
    if c == ']' {
        let mut rv: Vec<BuildEdge> = Vec::new();
        rv.push(v0);
        proof {
            assert(rv.deep_view() =~= seq![v0.deep_view()]);
        }
        Some((rv, p1 + 1))
    } else if c == ',' {
        proof {
            assert(s.skip((p1 - pos) + 1) =~= input@.skip(p1 + 1));
        }
        match p_edge_items(input, p1 + 1) {
            Some((mut l2, p2)) => {
                let ghost l2pre = l2.deep_view();
                l2.insert(0, v0);
                proof {
                    assert(l2.deep_view() =~= seq![v0.deep_view()] + l2pre);
                }
                Some((l2, p2))
            },
            None => None,
        }
    } else {
        None
    }
}

fn p_edge_list(input: &Vec<char>, pos: usize) -> (r: Option<(Vec<BuildEdge>, usize)>)
    requires
        pos <= input@.len(),
    ensures
        match sp_list(input@.skip(pos as int), edge_parser()) {
            Some((v, n)) => r matches Some((rv, rp)) && rv.deep_view() == v && rp as int == pos + n
                && pos <= rp <= input@.len(),
            None => r is None,
        },
{
    let ghost s = input@.skip(pos as int);
    if input.len() - pos < 2 {
        return None;
    }
    proof {
        assert(s[0] == input@[pos as int]);
        assert(s[1] == input@[pos + 1]);
    }
    if input[pos] != '[' {
        return None;
    }
    if input[pos + 1] == ']' {
        let rv: Vec<BuildEdge> = Vec::new();
        proof {
            assert(rv.deep_view() =~= Seq::<BuildEdgeView>::empty());
        }
        return Some((rv, pos + 2));
    }
    proof {
        assert(s.skip(1) =~= input@.skip(pos + 1));
    }
    match p_edge_items(input, pos + 1) {
        Some((rv, rp)) => Some((rv, rp)),
        None => None,
    }
}

fn p_keyed_edge_list(input: &Vec<char>, pos: usize, key: &str) -> (r: Option<(Vec<BuildEdge>, usize)>)
    requires
        pos <= input@.len(),
    ensures
        match sp_keyed(input@.skip(pos as int), key@, edge_list_parser()) {
            Some((v, n)) => r matches Some((rv, rp)) && rv.deep_view() == v && rp as int == pos + n
                && pos <= rp <= input@.len(),
            None => r is None,
        },
{
    proof {
        reveal(sp_keyed);
    }
    let ghost s = input@.skip(pos as int);
    let p0 = match expect_lit(input, pos, key) {
        Some(p) => p,
        None => {
            return None;
        },
    };
    proof {
        assert(input@.skip(p0 as int) =~= s.skip(p0 - pos));
        assert(edge_list_parser()(s.skip(p0 - pos)) == sp_list(input@.skip(p0 as int), edge_parser()));
    }
    match p_edge_list(input, p0) {
        Some((rv, rp)) => Some((rv, rp)),
        None => None,
    }
}

fn w_edge_items(out: &mut Vec<char>, l: &Vec<BuildEdge>, i: usize)
    requires
        i < l@.len(),
    ensures
        final(out)@ == old(out)@ + enc_items(l.deep_view().skip(i as int), edge_encoder()),
    decreases l@.len() - i,
{
    let ghost dv = l.deep_view().skip(i as int);
    let ghost enc = edge_encoder();
    proof {
        assert(dv[0] == l.deep_view()[i as int]);
        assert(enc(dv[0]) == enc_edge(l@[i as int].deep_view()));
    }
    w_edge(out, &l[i]);
    let n = l.len();
    if i < n - 1 {
        out.push(',');
        proof {
            assert(dv.drop_first() =~= l.deep_view().skip(i + 1));
        }
        w_edge_items(out, l, i + 1);
        proof {
            assert(old(out)@ + enc_items(dv, enc) =~= out@);
        }
    } else {
        proof {
            assert(dv.len() == 1);
            assert(old(out)@ + enc_items(dv, enc) =~= out@);
        }
    }
}

fn w_edge_list(out: &mut Vec<char>, l: &Vec<BuildEdge>)
    ensures
        final(out)@ == old(out)@ + enc_list(l.deep_view(), edge_encoder()),
{
    out.push('[');
    if l.len() > 0 {
        proof {
            assert(l.deep_view().skip(0) =~= l.deep_view());
        }
        w_edge_items(out, l, 0);
    } else {
        proof {
            assert(l.deep_view().len() == 0);
        }
    }
    out.push(']');
    proof {
        assert(old(out)@ + enc_list(l.deep_view(), edge_encoder()) =~= out@);
    }
}


proof fn lemma_edge_codec_ok(l: Seq<BuildEdgeView>)
    ensures
        element_codec_ok(l, edge_parser(), edge_encoder()),
{
    let f = edge_parser();
    let enc = edge_encoder();
    assert forall|v: BuildEdgeView, r2: Seq<char>| l.contains(v) implies #[trigger] f(enc(v) + r2)
        == Some::<(BuildEdgeView, int)>((v, enc(v).len() as int)) by {
        lemma_edge_rt(v, r2);
    }
    assert forall|v: BuildEdgeView| l.contains(v) implies (#[trigger] enc(v)).len() > 0 && enc(v)[0]
        != ']' by {
        lemma_edge_rt(v, Seq::<char>::empty());
        assert((enc_edge(v) + Seq::<char>::empty())[0] == enc_edge(v)[0]);
    }
}


/// The rendering of one such value.
pub open spec fn enc_workflow(v: StoredWorkflowView) -> Seq<char> {
    "{\"id\":"@ + (enc_str(v.id) + (",\"name\":"@ + (enc_str(v.name) + (",\"repo_id\":"@ + (enc_opt_str(v.repo_id) + (",\"nodes\":"@ + (enc_list(v.nodes, node_encoder()) + (",\"connections\":"@ + (enc_list(v.connections, edge_encoder()) + (",\"next_version\":"@ + (enc_str(v.next_version) + (",\"created_at\":"@ + (enc_str(v.created_at) + (",\"updated_at\":"@ + (enc_str(v.updated_at) + ("}"@))))))))))))))))
}


/// One such value at the front of `s`.
pub open spec fn sp_workflow(s: Seq<char>) -> Option<(StoredWorkflowView, int)> {
    match sp_keyed(s, "{\"id\":"@, string_parser()) {
        None => None,
        Some((id, n0)) => {
        match sp_keyed(s.skip(n0), ",\"name\":"@, string_parser()) {
            None => None,
            Some((name, n1)) => {
            match sp_keyed(s.skip(n0 + n1), ",\"repo_id\":"@, opt_str_parser()) {
                None => None,
                Some((repo_id, n2)) => {
                match sp_keyed(s.skip(n0 + n1 + n2), ",\"nodes\":"@, node_list_parser()) {
                    None => None,
                    Some((nodes, n3)) => {
                    match sp_keyed(s.skip(n0 + n1 + n2 + n3), ",\"connections\":"@, edge_list_parser()) {
                        None => None,
                        Some((connections, n4)) => {
                        match sp_keyed(s.skip(n0 + n1 + n2 + n3 + n4), ",\"next_version\":"@, string_parser()) {
                            None => None,
                            Some((next_version, n5)) => {
                            match sp_keyed(s.skip(n0 + n1 + n2 + n3 + n4 + n5), ",\"created_at\":"@, string_parser()) {
                                None => None,
                                Some((created_at, n6)) => {
                                match sp_keyed(s.skip(n0 + n1 + n2 + n3 + n4 + n5 + n6), ",\"updated_at\":"@, string_parser()) {
                                    None => None,
                                    Some((updated_at, n7)) => {
                                    match sp_lit(s.skip(n0 + n1 + n2 + n3 + n4 + n5 + n6 + n7), "}"@) {
                                        None => None,
                                        Some(nz) => Some((StoredWorkflowView { id, name, repo_id, nodes, connections, next_version, created_at, updated_at }, n0 + n1 + n2 + n3 + n4 + n5 + n6 + n7 + nz)),
                                    }
                                },
                                }
                            },
                            }
                        },
                        }
                    },
                    }
                },
                }
            },
            }
        },
        }
    },
    }
}

/// One such value, as a parser value.
pub open spec fn workflow_parser() -> spec_fn(Seq<char>) -> Option<(StoredWorkflowView, int)> {
    |s: Seq<char>| sp_workflow(s)
}

/// One such value, as an encoder value.
pub open spec fn workflow_encoder() -> spec_fn(StoredWorkflowView) -> Seq<char> {
    |v: StoredWorkflowView| enc_workflow(v)
}


/// Parsing an encoded value yields it back.
#[verifier::rlimit(100)]
pub proof fn lemma_workflow_rt(v: StoredWorkflowView, rest: Seq<char>)
    ensures
        sp_workflow(enc_workflow(v) + rest) == Some::<(StoredWorkflowView, int)>(
            (v, enc_workflow(v).len() as int),
        ),
        enc_workflow(v).len() > 0,
        (enc_workflow(v) + rest)[0] != ']',
{
    reveal_strlit("{\"id\":");
    let s = enc_workflow(v) + rest;
    let e0 = enc_str(v.id);
    let e1 = enc_str(v.name);
    let e2 = enc_opt_str(v.repo_id);
    let e3 = enc_list(v.nodes, node_encoder());
    let e4 = enc_list(v.connections, edge_encoder());
    let e5 = enc_str(v.next_version);
    let e6 = enc_str(v.created_at);
    let e7 = enc_str(v.updated_at);
    let t8 = "}"@ + rest;
    let t7 = ",\"updated_at\":"@ + (e7 + t8);
    let t6 = ",\"created_at\":"@ + (e6 + t7);
    let t5 = ",\"next_version\":"@ + (e5 + t6);
    let t4 = ",\"connections\":"@ + (e4 + t5);
    let t3 = ",\"nodes\":"@ + (e3 + t4);
    let t2 = ",\"repo_id\":"@ + (e2 + t3);
    let t1 = ",\"name\":"@ + (e1 + t2);
    let t0 = "{\"id\":"@ + (e0 + t1);
    assert(s == t0) by {
        lemma_assoc("{\"id\":"@, e0 + (",\"name\":"@ + (e1 + (",\"repo_id\":"@ + (e2 + (",\"nodes\":"@ + (e3 + (",\"connections\":"@ + (e4 + (",\"next_version\":"@ + (e5 + (",\"created_at\":"@ + (e6 + (",\"updated_at\":"@ + (e7 + ("}"@))))))))))))))), rest);
        lemma_assoc(e0, ",\"name\":"@ + (e1 + (",\"repo_id\":"@ + (e2 + (",\"nodes\":"@ + (e3 + (",\"connections\":"@ + (e4 + (",\"next_version\":"@ + (e5 + (",\"created_at\":"@ + (e6 + (",\"updated_at\":"@ + (e7 + ("}"@)))))))))))))), rest);
        lemma_assoc(",\"name\":"@, e1 + (",\"repo_id\":"@ + (e2 + (",\"nodes\":"@ + (e3 + (",\"connections\":"@ + (e4 + (",\"next_version\":"@ + (e5 + (",\"created_at\":"@ + (e6 + (",\"updated_at\":"@ + (e7 + ("}"@))))))))))))), rest);
        lemma_assoc(e1, ",\"repo_id\":"@ + (e2 + (",\"nodes\":"@ + (e3 + (",\"connections\":"@ + (e4 + (",\"next_version\":"@ + (e5 + (",\"created_at\":"@ + (e6 + (",\"updated_at\":"@ + (e7 + ("}"@)))))))))))), rest);
        lemma_assoc(",\"repo_id\":"@, e2 + (",\"nodes\":"@ + (e3 + (",\"connections\":"@ + (e4 + (",\"next_version\":"@ + (e5 + (",\"created_at\":"@ + (e6 + (",\"updated_at\":"@ + (e7 + ("}"@))))))))))), rest);
        lemma_assoc(e2, ",\"nodes\":"@ + (e3 + (",\"connections\":"@ + (e4 + (",\"next_version\":"@ + (e5 + (",\"created_at\":"@ + (e6 + (",\"updated_at\":"@ + (e7 + ("}"@)))))))))), rest);
        lemma_assoc(",\"nodes\":"@, e3 + (",\"connections\":"@ + (e4 + (",\"next_version\":"@ + (e5 + (",\"created_at\":"@ + (e6 + (",\"updated_at\":"@ + (e7 + ("}"@))))))))), rest);
        lemma_assoc(e3, ",\"connections\":"@ + (e4 + (",\"next_version\":"@ + (e5 + (",\"created_at\":"@ + (e6 + (",\"updated_at\":"@ + (e7 + ("}"@)))))))), rest);
        lemma_assoc(",\"connections\":"@, e4 + (",\"next_version\":"@ + (e5 + (",\"created_at\":"@ + (e6 + (",\"updated_at\":"@ + (e7 + ("}"@))))))), rest);
        lemma_assoc(e4, ",\"next_version\":"@ + (e5 + (",\"created_at\":"@ + (e6 + (",\"updated_at\":"@ + (e7 + ("}"@)))))), rest);
        lemma_assoc(",\"next_version\":"@, e5 + (",\"created_at\":"@ + (e6 + (",\"updated_at\":"@ + (e7 + ("}"@))))), rest);
        lemma_assoc(e5, ",\"created_at\":"@ + (e6 + (",\"updated_at\":"@ + (e7 + ("}"@)))), rest);
        lemma_assoc(",\"created_at\":"@, e6 + (",\"updated_at\":"@ + (e7 + ("}"@))), rest);
        lemma_assoc(e6, ",\"updated_at\":"@ + (e7 + ("}"@)), rest);
        lemma_assoc(",\"updated_at\":"@, e7 + ("}"@), rest);
        lemma_assoc(e7, "}"@, rest);
    }
    lemma_lit_rt("{\"id\":"@, e0 + t1);
    let m0 = ("{\"id\":"@.len() + e0.len()) as int;
    assert(sp_keyed(t0, "{\"id\":"@, string_parser()) == Some::<(Seq<char>, int)>((v.id, m0)) && t0.skip(m0) == t1 && t0.len() == m0 + t1.len()) by {
        lemma_str_rt(v.id, t1);
        assert(string_parser()(e0 + t1) == Some::<(Seq<char>, int)>((v.id, e0.len() as int)));
        lemma_keyed_rt("{\"id\":"@, string_parser(), v.id, e0, t1);
    }
    assert(s.skip(m0) == t1);
    let c0 = m0;
    let m1 = (",\"name\":"@.len() + e1.len()) as int;
    assert(sp_keyed(t1, ",\"name\":"@, string_parser()) == Some::<(Seq<char>, int)>((v.name, m1)) && t1.skip(m1) == t2 && t1.len() == m1 + t2.len()) by {
        lemma_str_rt(v.name, t2);
        assert(string_parser()(e1 + t2) == Some::<(Seq<char>, int)>((v.name, e1.len() as int)));
        lemma_keyed_rt(",\"name\":"@, string_parser(), v.name, e1, t2);
    }
    lemma_skip_skip(s, c0, m1);
    assert(s.skip(c0 + m1) == t2);
    let c1 = c0 + m1;
    let m2 = (",\"repo_id\":"@.len() + e2.len()) as int;
    assert(sp_keyed(t2, ",\"repo_id\":"@, opt_str_parser()) == Some::<(Option<Seq<char>>, int)>((v.repo_id, m2)) && t2.skip(m2) == t3 && t2.len() == m2 + t3.len()) by {
        lemma_opt_str_rt(v.repo_id, t3);
        assert(opt_str_parser()(e2 + t3) == Some::<(Option<Seq<char>>, int)>((v.repo_id, e2.len() as int)));
        lemma_keyed_rt(",\"repo_id\":"@, opt_str_parser(), v.repo_id, e2, t3);
    }
    lemma_skip_skip(s, c1, m2);
    assert(s.skip(c1 + m2) == t3);
    let c2 = c1 + m2;
    let m3 = (",\"nodes\":"@.len() + e3.len()) as int;
    assert(sp_keyed(t3, ",\"nodes\":"@, node_list_parser()) == Some::<(Seq<BuildNodeView>, int)>((v.nodes, m3)) && t3.skip(m3) == t4 && t3.len() == m3 + t4.len()) by {
        lemma_node_codec_ok(v.nodes);
        lemma_list_rt(v.nodes, node_parser(), node_encoder(), t4);
        assert(node_list_parser()(e3 + t4) == Some::<(Seq<BuildNodeView>, int)>((v.nodes, e3.len() as int)));
        lemma_keyed_rt(",\"nodes\":"@, node_list_parser(), v.nodes, e3, t4);
    }
    lemma_skip_skip(s, c2, m3);
    assert(s.skip(c2 + m3) == t4);
    let c3 = c2 + m3;
    let m4 = (",\"connections\":"@.len() + e4.len()) as int;
    assert(sp_keyed(t4, ",\"connections\":"@, edge_list_parser()) == Some::<(Seq<BuildEdgeView>, int)>((v.connections, m4)) && t4.skip(m4) == t5 && t4.len() == m4 + t5.len()) by {
        lemma_edge_codec_ok(v.connections);
        lemma_list_rt(v.connections, edge_parser(), edge_encoder(), t5);
        assert(edge_list_parser()(e4 + t5) == Some::<(Seq<BuildEdgeView>, int)>((v.connections, e4.len() as int)));
        lemma_keyed_rt(",\"connections\":"@, edge_list_parser(), v.connections, e4, t5);
    }
    lemma_skip_skip(s, c3, m4);
    assert(s.skip(c3 + m4) == t5);
    let c4 = c3 + m4;
    let m5 = (",\"next_version\":"@.len() + e5.len()) as int;
    assert(sp_keyed(t5, ",\"next_version\":"@, string_parser()) == Some::<(Seq<char>, int)>((v.next_version, m5)) && t5.skip(m5) == t6 && t5.len() == m5 + t6.len()) by {
        lemma_str_rt(v.next_version, t6);
        assert(string_parser()(e5 + t6) == Some::<(Seq<char>, int)>((v.next_version, e5.len() as int)));
        lemma_keyed_rt(",\"next_version\":"@, string_parser(), v.next_version, e5, t6);
    }
    lemma_skip_skip(s, c4, m5);
    assert(s.skip(c4 + m5) == t6);
    let c5 = c4 + m5;
    let m6 = (",\"created_at\":"@.len() + e6.len()) as int;
    assert(sp_keyed(t6, ",\"created_at\":"@, string_parser()) == Some::<(Seq<char>, int)>((v.created_at, m6)) && t6.skip(m6) == t7 && t6.len() == m6 + t7.len()) by {
        lemma_str_rt(v.created_at, t7);
        assert(string_parser()(e6 + t7) == Some::<(Seq<char>, int)>((v.created_at, e6.len() as int)));
        lemma_keyed_rt(",\"created_at\":"@, string_parser(), v.created_at, e6, t7);
    }
    lemma_skip_skip(s, c5, m6);
    assert(s.skip(c5 + m6) == t7);
    let c6 = c5 + m6;
    let m7 = (",\"updated_at\":"@.len() + e7.len()) as int;
    assert(sp_keyed(t7, ",\"updated_at\":"@, string_parser()) == Some::<(Seq<char>, int)>((v.updated_at, m7)) && t7.skip(m7) == t8 && t7.len() == m7 + t8.len()) by {
        lemma_str_rt(v.updated_at, t8);
        assert(string_parser()(e7 + t8) == Some::<(Seq<char>, int)>((v.updated_at, e7.len() as int)));
        lemma_keyed_rt(",\"updated_at\":"@, string_parser(), v.updated_at, e7, t8);
    }
    lemma_skip_skip(s, c6, m7);
    assert(s.skip(c6 + m7) == t8);
    let c7 = c6 + m7;
    lemma_lit_rt("}"@, rest);
    assert(s[0] == "{\"id\":"@[0]);
}


/// Writes one such value.
#[verifier::rlimit(100)]
pub fn w_workflow(out: &mut Vec<char>, x: &StoredWorkflow)
    ensures
        final(out)@ == old(out)@ + enc_workflow(x.deep_view()),
{
    w_lit(out, "{\"id\":");
    w_str(out, x.id.as_str());
    w_lit(out, ",\"name\":");
    w_str(out, x.name.as_str());
    w_lit(out, ",\"repo_id\":");
    w_opt_str(out, &x.repo_id);
    w_lit(out, ",\"nodes\":");
    w_node_list(out, &x.nodes);
    w_lit(out, ",\"connections\":");
    w_edge_list(out, &x.connections);
    w_lit(out, ",\"next_version\":");
    w_str(out, x.next_version.as_str());
    w_lit(out, ",\"created_at\":");
    w_str(out, x.created_at.as_str());
    w_lit(out, ",\"updated_at\":");
    w_str(out, x.updated_at.as_str());
    w_lit(out, "}");
    proof {
        lemma_assoc(old(out)@ + "{\"id\":"@ + enc_str(x.deep_view().id) + ",\"name\":"@ + enc_str(x.deep_view().name) + ",\"repo_id\":"@ + enc_opt_str(x.deep_view().repo_id) + ",\"nodes\":"@ + enc_list(x.deep_view().nodes, node_encoder()) + ",\"connections\":"@ + enc_list(x.deep_view().connections, edge_encoder()) + ",\"next_version\":"@ + enc_str(x.deep_view().next_version) + ",\"created_at\":"@ + enc_str(x.deep_view().created_at) + ",\"updated_at\":"@, enc_str(x.deep_view().updated_at), "}"@);
        lemma_assoc(old(out)@ + "{\"id\":"@ + enc_str(x.deep_view().id) + ",\"name\":"@ + enc_str(x.deep_view().name) + ",\"repo_id\":"@ + enc_opt_str(x.deep_view().repo_id) + ",\"nodes\":"@ + enc_list(x.deep_view().nodes, node_encoder()) + ",\"connections\":"@ + enc_list(x.deep_view().connections, edge_encoder()) + ",\"next_version\":"@ + enc_str(x.deep_view().next_version) + ",\"created_at\":"@ + enc_str(x.deep_view().created_at), ",\"updated_at\":"@, enc_str(x.deep_view().updated_at) + ("}"@));
        lemma_assoc(old(out)@ + "{\"id\":"@ + enc_str(x.deep_view().id) + ",\"name\":"@ + enc_str(x.deep_view().name) + ",\"repo_id\":"@ + enc_opt_str(x.deep_view().repo_id) + ",\"nodes\":"@ + enc_list(x.deep_view().nodes, node_encoder()) + ",\"connections\":"@ + enc_list(x.deep_view().connections, edge_encoder()) + ",\"next_version\":"@ + enc_str(x.deep_view().next_version) + ",\"created_at\":"@, enc_str(x.deep_view().created_at), ",\"updated_at\":"@ + (enc_str(x.deep_view().updated_at) + ("}"@)));
        lemma_assoc(old(out)@ + "{\"id\":"@ + enc_str(x.deep_view().id) + ",\"name\":"@ + enc_str(x.deep_view().name) + ",\"repo_id\":"@ + enc_opt_str(x.deep_view().repo_id) + ",\"nodes\":"@ + enc_list(x.deep_view().nodes, node_encoder()) + ",\"connections\":"@ + enc_list(x.deep_view().connections, edge_encoder()) + ",\"next_version\":"@ + enc_str(x.deep_view().next_version), ",\"created_at\":"@, enc_str(x.deep_view().created_at) + (",\"updated_at\":"@ + (enc_str(x.deep_view().updated_at) + ("}"@))));
        lemma_assoc(old(out)@ + "{\"id\":"@ + enc_str(x.deep_view().id) + ",\"name\":"@ + enc_str(x.deep_view().name) + ",\"repo_id\":"@ + enc_opt_str(x.deep_view().repo_id) + ",\"nodes\":"@ + enc_list(x.deep_view().nodes, node_encoder()) + ",\"connections\":"@ + enc_list(x.deep_view().connections, edge_encoder()) + ",\"next_version\":"@, enc_str(x.deep_view().next_version), ",\"created_at\":"@ + (enc_str(x.deep_view().created_at) + (",\"updated_at\":"@ + (enc_str(x.deep_view().updated_at) + ("}"@)))));
        lemma_assoc(old(out)@ + "{\"id\":"@ + enc_str(x.deep_view().id) + ",\"name\":"@ + enc_str(x.deep_view().name) + ",\"repo_id\":"@ + enc_opt_str(x.deep_view().repo_id) + ",\"nodes\":"@ + enc_list(x.deep_view().nodes, node_encoder()) + ",\"connections\":"@ + enc_list(x.deep_view().connections, edge_encoder()), ",\"next_version\":"@, enc_str(x.deep_view().next_version) + (",\"created_at\":"@ + (enc_str(x.deep_view().created_at) + (",\"updated_at\":"@ + (enc_str(x.deep_view().updated_at) + ("}"@))))));
        lemma_assoc(old(out)@ + "{\"id\":"@ + enc_str(x.deep_view().id) + ",\"name\":"@ + enc_str(x.deep_view().name) + ",\"repo_id\":"@ + enc_opt_str(x.deep_view().repo_id) + ",\"nodes\":"@ + enc_list(x.deep_view().nodes, node_encoder()) + ",\"connections\":"@, enc_list(x.deep_view().connections, edge_encoder()), ",\"next_version\":"@ + (enc_str(x.deep_view().next_version) + (",\"created_at\":"@ + (enc_str(x.deep_view().created_at) + (",\"updated_at\":"@ + (enc_str(x.deep_view().updated_at) + ("}"@)))))));
        lemma_assoc(old(out)@ + "{\"id\":"@ + enc_str(x.deep_view().id) + ",\"name\":"@ + enc_str(x.deep_view().name) + ",\"repo_id\":"@ + enc_opt_str(x.deep_view().repo_id) + ",\"nodes\":"@ + enc_list(x.deep_view().nodes, node_encoder()), ",\"connections\":"@, enc_list(x.deep_view().connections, edge_encoder()) + (",\"next_version\":"@ + (enc_str(x.deep_view().next_version) + (",\"created_at\":"@ + (enc_str(x.deep_view().created_at) + (",\"updated_at\":"@ + (enc_str(x.deep_view().updated_at) + ("}"@))))))));
        lemma_assoc(old(out)@ + "{\"id\":"@ + enc_str(x.deep_view().id) + ",\"name\":"@ + enc_str(x.deep_view().name) + ",\"repo_id\":"@ + enc_opt_str(x.deep_view().repo_id) + ",\"nodes\":"@, enc_list(x.deep_view().nodes, node_encoder()), ",\"connections\":"@ + (enc_list(x.deep_view().connections, edge_encoder()) + (",\"next_version\":"@ + (enc_str(x.deep_view().next_version) + (",\"created_at\":"@ + (enc_str(x.deep_view().created_at) + (",\"updated_at\":"@ + (enc_str(x.deep_view().updated_at) + ("}"@)))))))));
        lemma_assoc(old(out)@ + "{\"id\":"@ + enc_str(x.deep_view().id) + ",\"name\":"@ + enc_str(x.deep_view().name) + ",\"repo_id\":"@ + enc_opt_str(x.deep_view().repo_id), ",\"nodes\":"@, enc_list(x.deep_view().nodes, node_encoder()) + (",\"connections\":"@ + (enc_list(x.deep_view().connections, edge_encoder()) + (",\"next_version\":"@ + (enc_str(x.deep_view().next_version) + (",\"created_at\":"@ + (enc_str(x.deep_view().created_at) + (",\"updated_at\":"@ + (enc_str(x.deep_view().updated_at) + ("}"@))))))))));
        lemma_assoc(old(out)@ + "{\"id\":"@ + enc_str(x.deep_view().id) + ",\"name\":"@ + enc_str(x.deep_view().name) + ",\"repo_id\":"@, enc_opt_str(x.deep_view().repo_id), ",\"nodes\":"@ + (enc_list(x.deep_view().nodes, node_encoder()) + (",\"connections\":"@ + (enc_list(x.deep_view().connections, edge_encoder()) + (",\"next_version\":"@ + (enc_str(x.deep_view().next_version) + (",\"created_at\":"@ + (enc_str(x.deep_view().created_at) + (",\"updated_at\":"@ + (enc_str(x.deep_view().updated_at) + ("}"@)))))))))));
        lemma_assoc(old(out)@ + "{\"id\":"@ + enc_str(x.deep_view().id) + ",\"name\":"@ + enc_str(x.deep_view().name), ",\"repo_id\":"@, enc_opt_str(x.deep_view().repo_id) + (",\"nodes\":"@ + (enc_list(x.deep_view().nodes, node_encoder()) + (",\"connections\":"@ + (enc_list(x.deep_view().connections, edge_encoder()) + (",\"next_version\":"@ + (enc_str(x.deep_view().next_version) + (",\"created_at\":"@ + (enc_str(x.deep_view().created_at) + (",\"updated_at\":"@ + (enc_str(x.deep_view().updated_at) + ("}"@))))))))))));
        lemma_assoc(old(out)@ + "{\"id\":"@ + enc_str(x.deep_view().id) + ",\"name\":"@, enc_str(x.deep_view().name), ",\"repo_id\":"@ + (enc_opt_str(x.deep_view().repo_id) + (",\"nodes\":"@ + (enc_list(x.deep_view().nodes, node_encoder()) + (",\"connections\":"@ + (enc_list(x.deep_view().connections, edge_encoder()) + (",\"next_version\":"@ + (enc_str(x.deep_view().next_version) + (",\"created_at\":"@ + (enc_str(x.deep_view().created_at) + (",\"updated_at\":"@ + (enc_str(x.deep_view().updated_at) + ("}"@)))))))))))));
        lemma_assoc(old(out)@ + "{\"id\":"@ + enc_str(x.deep_view().id), ",\"name\":"@, enc_str(x.deep_view().name) + (",\"repo_id\":"@ + (enc_opt_str(x.deep_view().repo_id) + (",\"nodes\":"@ + (enc_list(x.deep_view().nodes, node_encoder()) + (",\"connections\":"@ + (enc_list(x.deep_view().connections, edge_encoder()) + (",\"next_version\":"@ + (enc_str(x.deep_view().next_version) + (",\"created_at\":"@ + (enc_str(x.deep_view().created_at) + (",\"updated_at\":"@ + (enc_str(x.deep_view().updated_at) + ("}"@))))))))))))));
        lemma_assoc(old(out)@ + "{\"id\":"@, enc_str(x.deep_view().id), ",\"name\":"@ + (enc_str(x.deep_view().name) + (",\"repo_id\":"@ + (enc_opt_str(x.deep_view().repo_id) + (",\"nodes\":"@ + (enc_list(x.deep_view().nodes, node_encoder()) + (",\"connections\":"@ + (enc_list(x.deep_view().connections, edge_encoder()) + (",\"next_version\":"@ + (enc_str(x.deep_view().next_version) + (",\"created_at\":"@ + (enc_str(x.deep_view().created_at) + (",\"updated_at\":"@ + (enc_str(x.deep_view().updated_at) + ("}"@)))))))))))))));
        lemma_assoc(old(out)@, "{\"id\":"@, enc_str(x.deep_view().id) + (",\"name\":"@ + (enc_str(x.deep_view().name) + (",\"repo_id\":"@ + (enc_opt_str(x.deep_view().repo_id) + (",\"nodes\":"@ + (enc_list(x.deep_view().nodes, node_encoder()) + (",\"connections\":"@ + (enc_list(x.deep_view().connections, edge_encoder()) + (",\"next_version\":"@ + (enc_str(x.deep_view().next_version) + (",\"created_at\":"@ + (enc_str(x.deep_view().created_at) + (",\"updated_at\":"@ + (enc_str(x.deep_view().updated_at) + ("}"@))))))))))))))));
        assert(out@ == old(out)@ + enc_workflow(x.deep_view()));
    }
}


/// One such value at the cursor.
#[verifier::rlimit(100)]
pub fn p_workflow(input: &Vec<char>, pos: usize) -> (r: Option<(StoredWorkflow, usize)>)
    requires
        pos <= input@.len(),
    ensures
        match sp_workflow(input@.skip(pos as int)) {
            Some((v, n)) => r matches Some((rv, rp)) && rv.deep_view() == v && rp as int == pos + n
                && pos <= rp <= input@.len(),
            None => r is None,
        },
{
    let ghost s = input@.skip(pos as int);
    let (id, q0) = match p_keyed_str(input, pos, "{\"id\":") {
        Some(x) => x,
        None => {
            return None;
        },
    };
    proof { assert(input@.skip(q0 as int) =~= s.skip(q0 - pos)); }
    let (name, q1) = match p_keyed_str(input, q0, ",\"name\":") {
        Some(x) => x,
        None => {
            return None;
        },
    };
    proof { assert(input@.skip(q1 as int) =~= s.skip(q1 - pos)); }
    let (repo_id, q2) = match p_keyed_opt_str(input, q1, ",\"repo_id\":") {
        Some(x) => x,
        None => {
            return None;
        },
    };
    proof { assert(input@.skip(q2 as int) =~= s.skip(q2 - pos)); }
    let (nodes, q3) = match p_keyed_node_list(input, q2, ",\"nodes\":") {
        Some(x) => x,
        None => {
            return None;
        },
    };
    proof { assert(input@.skip(q3 as int) =~= s.skip(q3 - pos)); }
    let (connections, q4) = match p_keyed_edge_list(input, q3, ",\"connections\":") {
        Some(x) => x,
        None => {
            return None;
        },
    };
    proof { assert(input@.skip(q4 as int) =~= s.skip(q4 - pos)); }
    let (next_version, q5) = match p_keyed_str(input, q4, ",\"next_version\":") {
        Some(x) => x,
        None => {
            return None;
        },
    };
    proof { assert(input@.skip(q5 as int) =~= s.skip(q5 - pos)); }
    let (created_at, q6) = match p_keyed_str(input, q5, ",\"created_at\":") {
        Some(x) => x,
        None => {
            return None;
        },
    };
    proof { assert(input@.skip(q6 as int) =~= s.skip(q6 - pos)); }
    let (updated_at, q7) = match p_keyed_str(input, q6, ",\"updated_at\":") {
        Some(x) => x,
        None => {
            return None;
        },
    };
    proof { assert(input@.skip(q7 as int) =~= s.skip(q7 - pos)); }
    let qz = match expect_lit(input, q7, "}") {
        Some(p) => p,
        None => {
            return None;
        },
    };
    let rv = StoredWorkflow { id, name, repo_id, nodes, connections, next_version, created_at, updated_at };
    Some((rv, qz))
}


/// The rendering of one such value.
pub open spec fn enc_action(v: StoredActionView) -> Seq<char> {
    "{\"id\":"@ + (enc_str(v.id) + (",\"name\":"@ + (enc_str(v.name) + (",\"description\":"@ + (enc_str(v.description) + (",\"script\":"@ + (enc_str(v.script) + (",\"inputs\":"@ + (enc_list(v.inputs, string_encoder()) + (",\"outputs\":"@ + (enc_list(v.outputs, string_encoder()) + (",\"created_at\":"@ + (enc_str(v.created_at) + (",\"updated_at\":"@ + (enc_str(v.updated_at) + ("}"@))))))))))))))))
}


/// One such value at the front of `s`.
pub open spec fn sp_action(s: Seq<char>) -> Option<(StoredActionView, int)> {
    match sp_keyed(s, "{\"id\":"@, string_parser()) {
        None => None,
        Some((id, n0)) => {
        match sp_keyed(s.skip(n0), ",\"name\":"@, string_parser()) {
            None => None,
            Some((name, n1)) => {
            match sp_keyed(s.skip(n0 + n1), ",\"description\":"@, string_parser()) {
                None => None,
                Some((description, n2)) => {
                match sp_keyed(s.skip(n0 + n1 + n2), ",\"script\":"@, string_parser()) {
                    None => None,
                    Some((script, n3)) => {
                    match sp_keyed(s.skip(n0 + n1 + n2 + n3), ",\"inputs\":"@, string_list_parser()) {
                        None => None,
                        Some((inputs, n4)) => {
                        match sp_keyed(s.skip(n0 + n1 + n2 + n3 + n4), ",\"outputs\":"@, string_list_parser()) {
                            None => None,
                            Some((outputs, n5)) => {
                            match sp_keyed(s.skip(n0 + n1 + n2 + n3 + n4 + n5), ",\"created_at\":"@, string_parser()) {
                                None => None,
                                Some((created_at, n6)) => {
                                match sp_keyed(s.skip(n0 + n1 + n2 + n3 + n4 + n5 + n6), ",\"updated_at\":"@, string_parser()) {
                                    None => None,
                                    Some((updated_at, n7)) => {
                                    match sp_lit(s.skip(n0 + n1 + n2 + n3 + n4 + n5 + n6 + n7), "}"@) {
                                        None => None,
                                        Some(nz) => Some((StoredActionView { id, name, description, script, inputs, outputs, created_at, updated_at }, n0 + n1 + n2 + n3 + n4 + n5 + n6 + n7 + nz)),
                                    }
                                },
                                }
                            },
                            }
                        },
                        }
                    },
                    }
                },
                }
            },
            }
        },
        }
    },
    }
}

/// One such value, as a parser value.
pub open spec fn action_parser() -> spec_fn(Seq<char>) -> Option<(StoredActionView, int)> {
    |s: Seq<char>| sp_action(s)
}

/// One such value, as an encoder value.
pub open spec fn action_encoder() -> spec_fn(StoredActionView) -> Seq<char> {
    |v: StoredActionView| enc_action(v)
}


/// Parsing an encoded value yields it back.
#[verifier::rlimit(100)]
pub proof fn lemma_action_rt(v: StoredActionView, rest: Seq<char>)
    ensures
        sp_action(enc_action(v) + rest) == Some::<(StoredActionView, int)>(
            (v, enc_action(v).len() as int),
        ),
        enc_action(v).len() > 0,
        (enc_action(v) + rest)[0] != ']',
{
    reveal_strlit("{\"id\":");
    let s = enc_action(v) + rest;
    let e0 = enc_str(v.id);
    let e1 = enc_str(v.name);
    let e2 = enc_str(v.description);
    let e3 = enc_str(v.script);
    let e4 = enc_list(v.inputs, string_encoder());
    let e5 = enc_list(v.outputs, string_encoder());
    let e6 = enc_str(v.created_at);
    let e7 = enc_str(v.updated_at);
    let t8 = "}"@ + rest;
    let t7 = ",\"updated_at\":"@ + (e7 + t8);
    let t6 = ",\"created_at\":"@ + (e6 + t7);
    let t5 = ",\"outputs\":"@ + (e5 + t6);
    let t4 = ",\"inputs\":"@ + (e4 + t5);
    let t3 = ",\"script\":"@ + (e3 + t4);
    let t2 = ",\"description\":"@ + (e2 + t3);
    let t1 = ",\"name\":"@ + (e1 + t2);
    let t0 = "{\"id\":"@ + (e0 + t1);
    assert(s == t0) by {
        lemma_assoc("{\"id\":"@, e0 + (",\"name\":"@ + (e1 + (",\"description\":"@ + (e2 + (",\"script\":"@ + (e3 + (",\"inputs\":"@ + (e4 + (",\"outputs\":"@ + (e5 + (",\"created_at\":"@ + (e6 + (",\"updated_at\":"@ + (e7 + ("}"@))))))))))))))), rest);
        lemma_assoc(e0, ",\"name\":"@ + (e1 + (",\"description\":"@ + (e2 + (",\"script\":"@ + (e3 + (",\"inputs\":"@ + (e4 + (",\"outputs\":"@ + (e5 + (",\"created_at\":"@ + (e6 + (",\"updated_at\":"@ + (e7 + ("}"@)))))))))))))), rest);
        lemma_assoc(",\"name\":"@, e1 + (",\"description\":"@ + (e2 + (",\"script\":"@ + (e3 + (",\"inputs\":"@ + (e4 + (",\"outputs\":"@ + (e5 + (",\"created_at\":"@ + (e6 + (",\"updated_at\":"@ + (e7 + ("}"@))))))))))))), rest);
        lemma_assoc(e1, ",\"description\":"@ + (e2 + (",\"script\":"@ + (e3 + (",\"inputs\":"@ + (e4 + (",\"outputs\":"@ + (e5 + (",\"created_at\":"@ + (e6 + (",\"updated_at\":"@ + (e7 + ("}"@)))))))))))), rest);
        lemma_assoc(",\"description\":"@, e2 + (",\"script\":"@ + (e3 + (",\"inputs\":"@ + (e4 + (",\"outputs\":"@ + (e5 + (",\"created_at\":"@ + (e6 + (",\"updated_at\":"@ + (e7 + ("}"@))))))))))), rest);
        lemma_assoc(e2, ",\"script\":"@ + (e3 + (",\"inputs\":"@ + (e4 + (",\"outputs\":"@ + (e5 + (",\"created_at\":"@ + (e6 + (",\"updated_at\":"@ + (e7 + ("}"@)))))))))), rest);
        lemma_assoc(",\"script\":"@, e3 + (",\"inputs\":"@ + (e4 + (",\"outputs\":"@ + (e5 + (",\"created_at\":"@ + (e6 + (",\"updated_at\":"@ + (e7 + ("}"@))))))))), rest);
        lemma_assoc(e3, ",\"inputs\":"@ + (e4 + (",\"outputs\":"@ + (e5 + (",\"created_at\":"@ + (e6 + (",\"updated_at\":"@ + (e7 + ("}"@)))))))), rest);
        lemma_assoc(",\"inputs\":"@, e4 + (",\"outputs\":"@ + (e5 + (",\"created_at\":"@ + (e6 + (",\"updated_at\":"@ + (e7 + ("}"@))))))), rest);
        lemma_assoc(e4, ",\"outputs\":"@ + (e5 + (",\"created_at\":"@ + (e6 + (",\"updated_at\":"@ + (e7 + ("}"@)))))), rest);
        lemma_assoc(",\"outputs\":"@, e5 + (",\"created_at\":"@ + (e6 + (",\"updated_at\":"@ + (e7 + ("}"@))))), rest);
        lemma_assoc(e5, ",\"created_at\":"@ + (e6 + (",\"updated_at\":"@ + (e7 + ("}"@)))), rest);
        lemma_assoc(",\"created_at\":"@, e6 + (",\"updated_at\":"@ + (e7 + ("}"@))), rest);
        lemma_assoc(e6, ",\"updated_at\":"@ + (e7 + ("}"@)), rest);
        lemma_assoc(",\"updated_at\":"@, e7 + ("}"@), rest);
        lemma_assoc(e7, "}"@, rest);
    }
    lemma_lit_rt("{\"id\":"@, e0 + t1);
    let m0 = ("{\"id\":"@.len() + e0.len()) as int;
    assert(sp_keyed(t0, "{\"id\":"@, string_parser()) == Some::<(Seq<char>, int)>((v.id, m0)) && t0.skip(m0) == t1 && t0.len() == m0 + t1.len()) by {
        lemma_str_rt(v.id, t1);
        assert(string_parser()(e0 + t1) == Some::<(Seq<char>, int)>((v.id, e0.len() as int)));
        lemma_keyed_rt("{\"id\":"@, string_parser(), v.id, e0, t1);
    }
    assert(s.skip(m0) == t1);
    let c0 = m0;
    let m1 = (",\"name\":"@.len() + e1.len()) as int;
    assert(sp_keyed(t1, ",\"name\":"@, string_parser()) == Some::<(Seq<char>, int)>((v.name, m1)) && t1.skip(m1) == t2 && t1.len() == m1 + t2.len()) by {
        lemma_str_rt(v.name, t2);
        assert(string_parser()(e1 + t2) == Some::<(Seq<char>, int)>((v.name, e1.len() as int)));
        lemma_keyed_rt(",\"name\":"@, string_parser(), v.name, e1, t2);
    }
    lemma_skip_skip(s, c0, m1);
    assert(s.skip(c0 + m1) == t2);
    let c1 = c0 + m1;
    let m2 = (",\"description\":"@.len() + e2.len()) as int;
    assert(sp_keyed(t2, ",\"description\":"@, string_parser()) == Some::<(Seq<char>, int)>((v.description, m2)) && t2.skip(m2) == t3 && t2.len() == m2 + t3.len()) by {
        lemma_str_rt(v.description, t3);
        assert(string_parser()(e2 + t3) == Some::<(Seq<char>, int)>((v.description, e2.len() as int)));
        lemma_keyed_rt(",\"description\":"@, string_parser(), v.description, e2, t3);
    }
    lemma_skip_skip(s, c1, m2);
    assert(s.skip(c1 + m2) == t3);
    let c2 = c1 + m2;
    let m3 = (",\"script\":"@.len() + e3.len()) as int;
    assert(sp_keyed(t3, ",\"script\":"@, string_parser()) == Some::<(Seq<char>, int)>((v.script, m3)) && t3.skip(m3) == t4 && t3.len() == m3 + t4.len()) by {
        lemma_str_rt(v.script, t4);
        assert(string_parser()(e3 + t4) == Some::<(Seq<char>, int)>((v.script, e3.len() as int)));
        lemma_keyed_rt(",\"script\":"@, string_parser(), v.script, e3, t4);
    }
    lemma_skip_skip(s, c2, m3);
    assert(s.skip(c2 + m3) == t4);
    let c3 = c2 + m3;
    let m4 = (",\"inputs\":"@.len() + e4.len()) as int;
    assert(sp_keyed(t4, ",\"inputs\":"@, string_list_parser()) == Some::<(Seq<Seq<char>>, int)>((v.inputs, m4)) && t4.skip(m4) == t5 && t4.len() == m4 + t5.len()) by {
        lemma_string_codec_ok(v.inputs);
        lemma_list_rt(v.inputs, string_parser(), string_encoder(), t5);
        assert(string_list_parser()(e4 + t5) == Some::<(Seq<Seq<char>>, int)>((v.inputs, e4.len() as int)));
        lemma_keyed_rt(",\"inputs\":"@, string_list_parser(), v.inputs, e4, t5);
    }
    lemma_skip_skip(s, c3, m4);
    assert(s.skip(c3 + m4) == t5);
    let c4 = c3 + m4;
    let m5 = (",\"outputs\":"@.len() + e5.len()) as int;
    assert(sp_keyed(t5, ",\"outputs\":"@, string_list_parser()) == Some::<(Seq<Seq<char>>, int)>((v.outputs, m5)) && t5.skip(m5) == t6 && t5.len() == m5 + t6.len()) by {
        lemma_string_codec_ok(v.outputs);
        lemma_list_rt(v.outputs, string_parser(), string_encoder(), t6);
        assert(string_list_parser()(e5 + t6) == Some::<(Seq<Seq<char>>, int)>((v.outputs, e5.len() as int)));
        lemma_keyed_rt(",\"outputs\":"@, string_list_parser(), v.outputs, e5, t6);
    }
    lemma_skip_skip(s, c4, m5);
    assert(s.skip(c4 + m5) == t6);
    let c5 = c4 + m5;
    let m6 = (",\"created_at\":"@.len() + e6.len()) as int;
    assert(sp_keyed(t6, ",\"created_at\":"@, string_parser()) == Some::<(Seq<char>, int)>((v.created_at, m6)) && t6.skip(m6) == t7 && t6.len() == m6 + t7.len()) by {
        lemma_str_rt(v.created_at, t7);
        assert(string_parser()(e6 + t7) == Some::<(Seq<char>, int)>((v.created_at, e6.len() as int)));
        lemma_keyed_rt(",\"created_at\":"@, string_parser(), v.created_at, e6, t7);
    }
    lemma_skip_skip(s, c5, m6);
    assert(s.skip(c5 + m6) == t7);
    let c6 = c5 + m6;
    let m7 = (",\"updated_at\":"@.len() + e7.len()) as int;
    assert(sp_keyed(t7, ",\"updated_at\":"@, string_parser()) == Some::<(Seq<char>, int)>((v.updated_at, m7)) && t7.skip(m7) == t8 && t7.len() == m7 + t8.len()) by {
        lemma_str_rt(v.updated_at, t8);
        assert(string_parser()(e7 + t8) == Some::<(Seq<char>, int)>((v.updated_at, e7.len() as int)));
        lemma_keyed_rt(",\"updated_at\":"@, string_parser(), v.updated_at, e7, t8);
    }
    lemma_skip_skip(s, c6, m7);
    assert(s.skip(c6 + m7) == t8);
    let c7 = c6 + m7;
    lemma_lit_rt("}"@, rest);
    assert(s[0] == "{\"id\":"@[0]);
}


/// Writes one such value.
#[verifier::rlimit(100)]
pub fn w_action(out: &mut Vec<char>, x: &StoredAction)
    ensures
        final(out)@ == old(out)@ + enc_action(x.deep_view()),
{
    w_lit(out, "{\"id\":");
    w_str(out, x.id.as_str());
    w_lit(out, ",\"name\":");
    w_str(out, x.name.as_str());
    w_lit(out, ",\"description\":");
    w_str(out, x.description.as_str());
    w_lit(out, ",\"script\":");
    w_str(out, x.script.as_str());
    w_lit(out, ",\"inputs\":");
    w_string_list(out, &x.inputs);
    w_lit(out, ",\"outputs\":");
    w_string_list(out, &x.outputs);
    w_lit(out, ",\"created_at\":");
    w_str(out, x.created_at.as_str());
    w_lit(out, ",\"updated_at\":");
    w_str(out, x.updated_at.as_str());
    w_lit(out, "}");
    proof {
        lemma_assoc(old(out)@ + "{\"id\":"@ + enc_str(x.deep_view().id) + ",\"name\":"@ + enc_str(x.deep_view().name) + ",\"description\":"@ + enc_str(x.deep_view().description) + ",\"script\":"@ + enc_str(x.deep_view().script) + ",\"inputs\":"@ + enc_list(x.deep_view().inputs, string_encoder()) + ",\"outputs\":"@ + enc_list(x.deep_view().outputs, string_encoder()) + ",\"created_at\":"@ + enc_str(x.deep_view().created_at) + ",\"updated_at\":"@, enc_str(x.deep_view().updated_at), "}"@);
        lemma_assoc(old(out)@ + "{\"id\":"@ + enc_str(x.deep_view().id) + ",\"name\":"@ + enc_str(x.deep_view().name) + ",\"description\":"@ + enc_str(x.deep_view().description) + ",\"script\":"@ + enc_str(x.deep_view().script) + ",\"inputs\":"@ + enc_list(x.deep_view().inputs, string_encoder()) + ",\"outputs\":"@ + enc_list(x.deep_view().outputs, string_encoder()) + ",\"created_at\":"@ + enc_str(x.deep_view().created_at), ",\"updated_at\":"@, enc_str(x.deep_view().updated_at) + ("}"@));
        lemma_assoc(old(out)@ + "{\"id\":"@ + enc_str(x.deep_view().id) + ",\"name\":"@ + enc_str(x.deep_view().name) + ",\"description\":"@ + enc_str(x.deep_view().description) + ",\"script\":"@ + enc_str(x.deep_view().script) + ",\"inputs\":"@ + enc_list(x.deep_view().inputs, string_encoder()) + ",\"outputs\":"@ + enc_list(x.deep_view().outputs, string_encoder()) + ",\"created_at\":"@, enc_str(x.deep_view().created_at), ",\"updated_at\":"@ + (enc_str(x.deep_view().updated_at) + ("}"@)));
        lemma_assoc(old(out)@ + "{\"id\":"@ + enc_str(x.deep_view().id) + ",\"name\":"@ + enc_str(x.deep_view().name) + ",\"description\":"@ + enc_str(x.deep_view().description) + ",\"script\":"@ + enc_str(x.deep_view().script) + ",\"inputs\":"@ + enc_list(x.deep_view().inputs, string_encoder()) + ",\"outputs\":"@ + enc_list(x.deep_view().outputs, string_encoder()), ",\"created_at\":"@, enc_str(x.deep_view().created_at) + (",\"updated_at\":"@ + (enc_str(x.deep_view().updated_at) + ("}"@))));
        lemma_assoc(old(out)@ + "{\"id\":"@ + enc_str(x.deep_view().id) + ",\"name\":"@ + enc_str(x.deep_view().name) + ",\"description\":"@ + enc_str(x.deep_view().description) + ",\"script\":"@ + enc_str(x.deep_view().script) + ",\"inputs\":"@ + enc_list(x.deep_view().inputs, string_encoder()) + ",\"outputs\":"@, enc_list(x.deep_view().outputs, string_encoder()), ",\"created_at\":"@ + (enc_str(x.deep_view().created_at) + (",\"updated_at\":"@ + (enc_str(x.deep_view().updated_at) + ("}"@)))));
        lemma_assoc(old(out)@ + "{\"id\":"@ + enc_str(x.deep_view().id) + ",\"name\":"@ + enc_str(x.deep_view().name) + ",\"description\":"@ + enc_str(x.deep_view().description) + ",\"script\":"@ + enc_str(x.deep_view().script) + ",\"inputs\":"@ + enc_list(x.deep_view().inputs, string_encoder()), ",\"outputs\":"@, enc_list(x.deep_view().outputs, string_encoder()) + (",\"created_at\":"@ + (enc_str(x.deep_view().created_at) + (",\"updated_at\":"@ + (enc_str(x.deep_view().updated_at) + ("}"@))))));
        lemma_assoc(old(out)@ + "{\"id\":"@ + enc_str(x.deep_view().id) + ",\"name\":"@ + enc_str(x.deep_view().name) + ",\"description\":"@ + enc_str(x.deep_view().description) + ",\"script\":"@ + enc_str(x.deep_view().script) + ",\"inputs\":"@, enc_list(x.deep_view().inputs, string_encoder()), ",\"outputs\":"@ + (enc_list(x.deep_view().outputs, string_encoder()) + (",\"created_at\":"@ + (enc_str(x.deep_view().created_at) + (",\"updated_at\":"@ + (enc_str(x.deep_view().updated_at) + ("}"@)))))));
        lemma_assoc(old(out)@ + "{\"id\":"@ + enc_str(x.deep_view().id) + ",\"name\":"@ + enc_str(x.deep_view().name) + ",\"description\":"@ + enc_str(x.deep_view().description) + ",\"script\":"@ + enc_str(x.deep_view().script), ",\"inputs\":"@, enc_list(x.deep_view().inputs, string_encoder()) + (",\"outputs\":"@ + (enc_list(x.deep_view().outputs, string_encoder()) + (",\"created_at\":"@ + (enc_str(x.deep_view().created_at) + (",\"updated_at\":"@ + (enc_str(x.deep_view().updated_at) + ("}"@))))))));
        lemma_assoc(old(out)@ + "{\"id\":"@ + enc_str(x.deep_view().id) + ",\"name\":"@ + enc_str(x.deep_view().name) + ",\"description\":"@ + enc_str(x.deep_view().description) + ",\"script\":"@, enc_str(x.deep_view().script), ",\"inputs\":"@ + (enc_list(x.deep_view().inputs, string_encoder()) + (",\"outputs\":"@ + (enc_list(x.deep_view().outputs, string_encoder()) + (",\"created_at\":"@ + (enc_str(x.deep_view().created_at) + (",\"updated_at\":"@ + (enc_str(x.deep_view().updated_at) + ("}"@)))))))));
        lemma_assoc(old(out)@ + "{\"id\":"@ + enc_str(x.deep_view().id) + ",\"name\":"@ + enc_str(x.deep_view().name) + ",\"description\":"@ + enc_str(x.deep_view().description), ",\"script\":"@, enc_str(x.deep_view().script) + (",\"inputs\":"@ + (enc_list(x.deep_view().inputs, string_encoder()) + (",\"outputs\":"@ + (enc_list(x.deep_view().outputs, string_encoder()) + (",\"created_at\":"@ + (enc_str(x.deep_view().created_at) + (",\"updated_at\":"@ + (enc_str(x.deep_view().updated_at) + ("}"@))))))))));
        lemma_assoc(old(out)@ + "{\"id\":"@ + enc_str(x.deep_view().id) + ",\"name\":"@ + enc_str(x.deep_view().name) + ",\"description\":"@, enc_str(x.deep_view().description), ",\"script\":"@ + (enc_str(x.deep_view().script) + (",\"inputs\":"@ + (enc_list(x.deep_view().inputs, string_encoder()) + (",\"outputs\":"@ + (enc_list(x.deep_view().outputs, string_encoder()) + (",\"created_at\":"@ + (enc_str(x.deep_view().created_at) + (",\"updated_at\":"@ + (enc_str(x.deep_view().updated_at) + ("}"@)))))))))));
        lemma_assoc(old(out)@ + "{\"id\":"@ + enc_str(x.deep_view().id) + ",\"name\":"@ + enc_str(x.deep_view().name), ",\"description\":"@, enc_str(x.deep_view().description) + (",\"script\":"@ + (enc_str(x.deep_view().script) + (",\"inputs\":"@ + (enc_list(x.deep_view().inputs, string_encoder()) + (",\"outputs\":"@ + (enc_list(x.deep_view().outputs, string_encoder()) + (",\"created_at\":"@ + (enc_str(x.deep_view().created_at) + (",\"updated_at\":"@ + (enc_str(x.deep_view().updated_at) + ("}"@))))))))))));
        lemma_assoc(old(out)@ + "{\"id\":"@ + enc_str(x.deep_view().id) + ",\"name\":"@, enc_str(x.deep_view().name), ",\"description\":"@ + (enc_str(x.deep_view().description) + (",\"script\":"@ + (enc_str(x.deep_view().script) + (",\"inputs\":"@ + (enc_list(x.deep_view().inputs, string_encoder()) + (",\"outputs\":"@ + (enc_list(x.deep_view().outputs, string_encoder()) + (",\"created_at\":"@ + (enc_str(x.deep_view().created_at) + (",\"updated_at\":"@ + (enc_str(x.deep_view().updated_at) + ("}"@)))))))))))));
        lemma_assoc(old(out)@ + "{\"id\":"@ + enc_str(x.deep_view().id), ",\"name\":"@, enc_str(x.deep_view().name) + (",\"description\":"@ + (enc_str(x.deep_view().description) + (",\"script\":"@ + (enc_str(x.deep_view().script) + (",\"inputs\":"@ + (enc_list(x.deep_view().inputs, string_encoder()) + (",\"outputs\":"@ + (enc_list(x.deep_view().outputs, string_encoder()) + (",\"created_at\":"@ + (enc_str(x.deep_view().created_at) + (",\"updated_at\":"@ + (enc_str(x.deep_view().updated_at) + ("}"@))))))))))))));
        lemma_assoc(old(out)@ + "{\"id\":"@, enc_str(x.deep_view().id), ",\"name\":"@ + (enc_str(x.deep_view().name) + (",\"description\":"@ + (enc_str(x.deep_view().description) + (",\"script\":"@ + (enc_str(x.deep_view().script) + (",\"inputs\":"@ + (enc_list(x.deep_view().inputs, string_encoder()) + (",\"outputs\":"@ + (enc_list(x.deep_view().outputs, string_encoder()) + (",\"created_at\":"@ + (enc_str(x.deep_view().created_at) + (",\"updated_at\":"@ + (enc_str(x.deep_view().updated_at) + ("}"@)))))))))))))));
        lemma_assoc(old(out)@, "{\"id\":"@, enc_str(x.deep_view().id) + (",\"name\":"@ + (enc_str(x.deep_view().name) + (",\"description\":"@ + (enc_str(x.deep_view().description) + (",\"script\":"@ + (enc_str(x.deep_view().script) + (",\"inputs\":"@ + (enc_list(x.deep_view().inputs, string_encoder()) + (",\"outputs\":"@ + (enc_list(x.deep_view().outputs, string_encoder()) + (",\"created_at\":"@ + (enc_str(x.deep_view().created_at) + (",\"updated_at\":"@ + (enc_str(x.deep_view().updated_at) + ("}"@))))))))))))))));
        assert(out@ == old(out)@ + enc_action(x.deep_view()));
    }
}


/// One such value at the cursor.
#[verifier::rlimit(100)]
pub fn p_action(input: &Vec<char>, pos: usize) -> (r: Option<(StoredAction, usize)>)
    requires
        pos <= input@.len(),
    ensures
        match sp_action(input@.skip(pos as int)) {
            Some((v, n)) => r matches Some((rv, rp)) && rv.deep_view() == v && rp as int == pos + n
                && pos <= rp <= input@.len(),
            None => r is None,
        },
{
    let ghost s = input@.skip(pos as int);
    let (id, q0) = match p_keyed_str(input, pos, "{\"id\":") {
        Some(x) => x,
        None => {
            return None;
        },
    };
    proof { assert(input@.skip(q0 as int) =~= s.skip(q0 - pos)); }
    let (name, q1) = match p_keyed_str(input, q0, ",\"name\":") {
        Some(x) => x,
        None => {
            return None;
        },
    };
    proof { assert(input@.skip(q1 as int) =~= s.skip(q1 - pos)); }
    let (description, q2) = match p_keyed_str(input, q1, ",\"description\":") {
        Some(x) => x,
        None => {
            return None;
        },
    };
    proof { assert(input@.skip(q2 as int) =~= s.skip(q2 - pos)); }
    let (script, q3) = match p_keyed_str(input, q2, ",\"script\":") {
        Some(x) => x,
        None => {
            return None;
        },
    };
    proof { assert(input@.skip(q3 as int) =~= s.skip(q3 - pos)); }
    let (inputs, q4) = match p_keyed_string_list(input, q3, ",\"inputs\":") {
        Some(x) => x,
        None => {
            return None;
        },
    };
    proof { assert(input@.skip(q4 as int) =~= s.skip(q4 - pos)); }
    let (outputs, q5) = match p_keyed_string_list(input, q4, ",\"outputs\":") {
        Some(x) => x,
        None => {
            return None;
        },
    };
    proof { assert(input@.skip(q5 as int) =~= s.skip(q5 - pos)); }
    let (created_at, q6) = match p_keyed_str(input, q5, ",\"created_at\":") {
        Some(x) => x,
        None => {
            return None;
        },
    };
    proof { assert(input@.skip(q6 as int) =~= s.skip(q6 - pos)); }
    let (updated_at, q7) = match p_keyed_str(input, q6, ",\"updated_at\":") {
        Some(x) => x,
        None => {
            return None;
        },
    };
    proof { assert(input@.skip(q7 as int) =~= s.skip(q7 - pos)); }
    let qz = match expect_lit(input, q7, "}") {
        Some(p) => p,
        None => {
            return None;
        },
    };
    let rv = StoredAction { id, name, description, script, inputs, outputs, created_at, updated_at };
    Some((rv, qz))
}


/// The rendering of one such value.
pub open spec fn enc_repo(v: StoredRepoView) -> Seq<char> {
    "{\"id\":"@ + (enc_str(v.id) + (",\"path\":"@ + (enc_str(v.path) + (",\"owner\":"@ + (enc_opt_str(v.owner) + (",\"repo\":"@ + (enc_opt_str(v.repo) + (",\"default_branch\":"@ + (enc_str(v.default_branch) + (",\"cloned_at\":"@ + (enc_opt_str(v.cloned_at) + ("}"@))))))))))))
}


/// One such value at the front of `s`.
pub open spec fn sp_repo(s: Seq<char>) -> Option<(StoredRepoView, int)> {
    match sp_keyed(s, "{\"id\":"@, string_parser()) {
        None => None,
        Some((id, n0)) => {
        match sp_keyed(s.skip(n0), ",\"path\":"@, string_parser()) {
            None => None,
            Some((path, n1)) => {
            match sp_keyed(s.skip(n0 + n1), ",\"owner\":"@, opt_str_parser()) {
                None => None,
                Some((owner, n2)) => {
                match sp_keyed(s.skip(n0 + n1 + n2), ",\"repo\":"@, opt_str_parser()) {
                    None => None,
                    Some((repo, n3)) => {
                    match sp_keyed(s.skip(n0 + n1 + n2 + n3), ",\"default_branch\":"@, string_parser()) {
                        None => None,
                        Some((default_branch, n4)) => {
                        match sp_keyed(s.skip(n0 + n1 + n2 + n3 + n4), ",\"cloned_at\":"@, opt_str_parser()) {
                            None => None,
                            Some((cloned_at, n5)) => {
                            match sp_lit(s.skip(n0 + n1 + n2 + n3 + n4 + n5), "}"@) {
                                None => None,
                                Some(nz) => Some((StoredRepoView { id, path, owner, repo, default_branch, cloned_at }, n0 + n1 + n2 + n3 + n4 + n5 + nz)),
                            }
                        },
                        }
                    },
                    }
                },
                }
            },
            }
        },
        }
    },
    }
}

/// One such value, as a parser value.
pub open spec fn repo_parser() -> spec_fn(Seq<char>) -> Option<(StoredRepoView, int)> {
    |s: Seq<char>| sp_repo(s)
}

/// One such value, as an encoder value.
pub open spec fn repo_encoder() -> spec_fn(StoredRepoView) -> Seq<char> {
    |v: StoredRepoView| enc_repo(v)
}


/// Parsing an encoded value yields it back.
#[verifier::rlimit(100)]
pub proof fn lemma_repo_rt(v: StoredRepoView, rest: Seq<char>)
    ensures
        sp_repo(enc_repo(v) + rest) == Some::<(StoredRepoView, int)>(
            (v, enc_repo(v).len() as int),
        ),
        enc_repo(v).len() > 0,
        (enc_repo(v) + rest)[0] != ']',
{
    reveal_strlit("{\"id\":");
    let s = enc_repo(v) + rest;
    let e0 = enc_str(v.id);
    let e1 = enc_str(v.path);
    let e2 = enc_opt_str(v.owner);
    let e3 = enc_opt_str(v.repo);
    let e4 = enc_str(v.default_branch);
    let e5 = enc_opt_str(v.cloned_at);
    let t6 = "}"@ + rest;
    let t5 = ",\"cloned_at\":"@ + (e5 + t6);
    let t4 = ",\"default_branch\":"@ + (e4 + t5);
    let t3 = ",\"repo\":"@ + (e3 + t4);
    let t2 = ",\"owner\":"@ + (e2 + t3);
    let t1 = ",\"path\":"@ + (e1 + t2);
    let t0 = "{\"id\":"@ + (e0 + t1);
    assert(s == t0) by {
        lemma_assoc("{\"id\":"@, e0 + (",\"path\":"@ + (e1 + (",\"owner\":"@ + (e2 + (",\"repo\":"@ + (e3 + (",\"default_branch\":"@ + (e4 + (",\"cloned_at\":"@ + (e5 + ("}"@))))))))))), rest);
        lemma_assoc(e0, ",\"path\":"@ + (e1 + (",\"owner\":"@ + (e2 + (",\"repo\":"@ + (e3 + (",\"default_branch\":"@ + (e4 + (",\"cloned_at\":"@ + (e5 + ("}"@)))))))))), rest);
        lemma_assoc(",\"path\":"@, e1 + (",\"owner\":"@ + (e2 + (",\"repo\":"@ + (e3 + (",\"default_branch\":"@ + (e4 + (",\"cloned_at\":"@ + (e5 + ("}"@))))))))), rest);
        lemma_assoc(e1, ",\"owner\":"@ + (e2 + (",\"repo\":"@ + (e3 + (",\"default_branch\":"@ + (e4 + (",\"cloned_at\":"@ + (e5 + ("}"@)))))))), rest);
        lemma_assoc(",\"owner\":"@, e2 + (",\"repo\":"@ + (e3 + (",\"default_branch\":"@ + (e4 + (",\"cloned_at\":"@ + (e5 + ("}"@))))))), rest);
        lemma_assoc(e2, ",\"repo\":"@ + (e3 + (",\"default_branch\":"@ + (e4 + (",\"cloned_at\":"@ + (e5 + ("}"@)))))), rest);
        lemma_assoc(",\"repo\":"@, e3 + (",\"default_branch\":"@ + (e4 + (",\"cloned_at\":"@ + (e5 + ("}"@))))), rest);
        lemma_assoc(e3, ",\"default_branch\":"@ + (e4 + (",\"cloned_at\":"@ + (e5 + ("}"@)))), rest);
        lemma_assoc(",\"default_branch\":"@, e4 + (",\"cloned_at\":"@ + (e5 + ("}"@))), rest);
        lemma_assoc(e4, ",\"cloned_at\":"@ + (e5 + ("}"@)), rest);
        lemma_assoc(",\"cloned_at\":"@, e5 + ("}"@), rest);
        lemma_assoc(e5, "}"@, rest);
    }
    lemma_lit_rt("{\"id\":"@, e0 + t1);
    let m0 = ("{\"id\":"@.len() + e0.len()) as int;
    assert(sp_keyed(t0, "{\"id\":"@, string_parser()) == Some::<(Seq<char>, int)>((v.id, m0)) && t0.skip(m0) == t1 && t0.len() == m0 + t1.len()) by {
        lemma_str_rt(v.id, t1);
        assert(string_parser()(e0 + t1) == Some::<(Seq<char>, int)>((v.id, e0.len() as int)));
        lemma_keyed_rt("{\"id\":"@, string_parser(), v.id, e0, t1);
    }
    assert(s.skip(m0) == t1);
    let c0 = m0;
    let m1 = (",\"path\":"@.len() + e1.len()) as int;
    assert(sp_keyed(t1, ",\"path\":"@, string_parser()) == Some::<(Seq<char>, int)>((v.path, m1)) && t1.skip(m1) == t2 && t1.len() == m1 + t2.len()) by {
        lemma_str_rt(v.path, t2);
        assert(string_parser()(e1 + t2) == Some::<(Seq<char>, int)>((v.path, e1.len() as int)));
        lemma_keyed_rt(",\"path\":"@, string_parser(), v.path, e1, t2);
    }
    lemma_skip_skip(s, c0, m1);
    assert(s.skip(c0 + m1) == t2);
    let c1 = c0 + m1;
    let m2 = (",\"owner\":"@.len() + e2.len()) as int;
    assert(sp_keyed(t2, ",\"owner\":"@, opt_str_parser()) == Some::<(Option<Seq<char>>, int)>((v.owner, m2)) && t2.skip(m2) == t3 && t2.len() == m2 + t3.len()) by {
        lemma_opt_str_rt(v.owner, t3);
        assert(opt_str_parser()(e2 + t3) == Some::<(Option<Seq<char>>, int)>((v.owner, e2.len() as int)));
        lemma_keyed_rt(",\"owner\":"@, opt_str_parser(), v.owner, e2, t3);
    }
    lemma_skip_skip(s, c1, m2);
    assert(s.skip(c1 + m2) == t3);
    let c2 = c1 + m2;
    let m3 = (",\"repo\":"@.len() + e3.len()) as int;
    assert(sp_keyed(t3, ",\"repo\":"@, opt_str_parser()) == Some::<(Option<Seq<char>>, int)>((v.repo, m3)) && t3.skip(m3) == t4 && t3.len() == m3 + t4.len()) by {
        lemma_opt_str_rt(v.repo, t4);
        assert(opt_str_parser()(e3 + t4) == Some::<(Option<Seq<char>>, int)>((v.repo, e3.len() as int)));
        lemma_keyed_rt(",\"repo\":"@, opt_str_parser(), v.repo, e3, t4);
    }
    lemma_skip_skip(s, c2, m3);
    assert(s.skip(c2 + m3) == t4);
    let c3 = c2 + m3;
    let m4 = (",\"default_branch\":"@.len() + e4.len()) as int;
    assert(sp_keyed(t4, ",\"default_branch\":"@, string_parser()) == Some::<(Seq<char>, int)>((v.default_branch, m4)) && t4.skip(m4) == t5 && t4.len() == m4 + t5.len()) by {
        lemma_str_rt(v.default_branch, t5);
        assert(string_parser()(e4 + t5) == Some::<(Seq<char>, int)>((v.default_branch, e4.len() as int)));
        lemma_keyed_rt(",\"default_branch\":"@, string_parser(), v.default_branch, e4, t5);
    }
    lemma_skip_skip(s, c3, m4);
    assert(s.skip(c3 + m4) == t5);
    let c4 = c3 + m4;
    let m5 = (",\"cloned_at\":"@.len() + e5.len()) as int;
    assert(sp_keyed(t5, ",\"cloned_at\":"@, opt_str_parser()) == Some::<(Option<Seq<char>>, int)>((v.cloned_at, m5)) && t5.skip(m5) == t6 && t5.len() == m5 + t6.len()) by {
        lemma_opt_str_rt(v.cloned_at, t6);
        assert(opt_str_parser()(e5 + t6) == Some::<(Option<Seq<char>>, int)>((v.cloned_at, e5.len() as int)));
        lemma_keyed_rt(",\"cloned_at\":"@, opt_str_parser(), v.cloned_at, e5, t6);
    }
    lemma_skip_skip(s, c4, m5);
    assert(s.skip(c4 + m5) == t6);
    let c5 = c4 + m5;
    lemma_lit_rt("}"@, rest);
    assert(s[0] == "{\"id\":"@[0]);
}


/// Writes one such value.
#[verifier::rlimit(100)]
pub fn w_repo(out: &mut Vec<char>, x: &StoredRepo)
    ensures
        final(out)@ == old(out)@ + enc_repo(x.deep_view()),
{
    w_lit(out, "{\"id\":");
    w_str(out, x.id.as_str());
    w_lit(out, ",\"path\":");
    w_str(out, x.path.as_str());
    w_lit(out, ",\"owner\":");
    w_opt_str(out, &x.owner);
    w_lit(out, ",\"repo\":");
    w_opt_str(out, &x.repo);
    w_lit(out, ",\"default_branch\":");
    w_str(out, x.default_branch.as_str());
    w_lit(out, ",\"cloned_at\":");
    w_opt_str(out, &x.cloned_at);
    w_lit(out, "}");
    proof {
        lemma_assoc(old(out)@ + "{\"id\":"@ + enc_str(x.deep_view().id) + ",\"path\":"@ + enc_str(x.deep_view().path) + ",\"owner\":"@ + enc_opt_str(x.deep_view().owner) + ",\"repo\":"@ + enc_opt_str(x.deep_view().repo) + ",\"default_branch\":"@ + enc_str(x.deep_view().default_branch) + ",\"cloned_at\":"@, enc_opt_str(x.deep_view().cloned_at), "}"@);
        lemma_assoc(old(out)@ + "{\"id\":"@ + enc_str(x.deep_view().id) + ",\"path\":"@ + enc_str(x.deep_view().path) + ",\"owner\":"@ + enc_opt_str(x.deep_view().owner) + ",\"repo\":"@ + enc_opt_str(x.deep_view().repo) + ",\"default_branch\":"@ + enc_str(x.deep_view().default_branch), ",\"cloned_at\":"@, enc_opt_str(x.deep_view().cloned_at) + ("}"@));
        lemma_assoc(old(out)@ + "{\"id\":"@ + enc_str(x.deep_view().id) + ",\"path\":"@ + enc_str(x.deep_view().path) + ",\"owner\":"@ + enc_opt_str(x.deep_view().owner) + ",\"repo\":"@ + enc_opt_str(x.deep_view().repo) + ",\"default_branch\":"@, enc_str(x.deep_view().default_branch), ",\"cloned_at\":"@ + (enc_opt_str(x.deep_view().cloned_at) + ("}"@)));
        lemma_assoc(old(out)@ + "{\"id\":"@ + enc_str(x.deep_view().id) + ",\"path\":"@ + enc_str(x.deep_view().path) + ",\"owner\":"@ + enc_opt_str(x.deep_view().owner) + ",\"repo\":"@ + enc_opt_str(x.deep_view().repo), ",\"default_branch\":"@, enc_str(x.deep_view().default_branch) + (",\"cloned_at\":"@ + (enc_opt_str(x.deep_view().cloned_at) + ("}"@))));
        lemma_assoc(old(out)@ + "{\"id\":"@ + enc_str(x.deep_view().id) + ",\"path\":"@ + enc_str(x.deep_view().path) + ",\"owner\":"@ + enc_opt_str(x.deep_view().owner) + ",\"repo\":"@, enc_opt_str(x.deep_view().repo), ",\"default_branch\":"@ + (enc_str(x.deep_view().default_branch) + (",\"cloned_at\":"@ + (enc_opt_str(x.deep_view().cloned_at) + ("}"@)))));
        lemma_assoc(old(out)@ + "{\"id\":"@ + enc_str(x.deep_view().id) + ",\"path\":"@ + enc_str(x.deep_view().path) + ",\"owner\":"@ + enc_opt_str(x.deep_view().owner), ",\"repo\":"@, enc_opt_str(x.deep_view().repo) + (",\"default_branch\":"@ + (enc_str(x.deep_view().default_branch) + (",\"cloned_at\":"@ + (enc_opt_str(x.deep_view().cloned_at) + ("}"@))))));
        lemma_assoc(old(out)@ + "{\"id\":"@ + enc_str(x.deep_view().id) + ",\"path\":"@ + enc_str(x.deep_view().path) + ",\"owner\":"@, enc_opt_str(x.deep_view().owner), ",\"repo\":"@ + (enc_opt_str(x.deep_view().repo) + (",\"default_branch\":"@ + (enc_str(x.deep_view().default_branch) + (",\"cloned_at\":"@ + (enc_opt_str(x.deep_view().cloned_at) + ("}"@)))))));
        lemma_assoc(old(out)@ + "{\"id\":"@ + enc_str(x.deep_view().id) + ",\"path\":"@ + enc_str(x.deep_view().path), ",\"owner\":"@, enc_opt_str(x.deep_view().owner) + (",\"repo\":"@ + (enc_opt_str(x.deep_view().repo) + (",\"default_branch\":"@ + (enc_str(x.deep_view().default_branch) + (",\"cloned_at\":"@ + (enc_opt_str(x.deep_view().cloned_at) + ("}"@))))))));
        lemma_assoc(old(out)@ + "{\"id\":"@ + enc_str(x.deep_view().id) + ",\"path\":"@, enc_str(x.deep_view().path), ",\"owner\":"@ + (enc_opt_str(x.deep_view().owner) + (",\"repo\":"@ + (enc_opt_str(x.deep_view().repo) + (",\"default_branch\":"@ + (enc_str(x.deep_view().default_branch) + (",\"cloned_at\":"@ + (enc_opt_str(x.deep_view().cloned_at) + ("}"@)))))))));
        lemma_assoc(old(out)@ + "{\"id\":"@ + enc_str(x.deep_view().id), ",\"path\":"@, enc_str(x.deep_view().path) + (",\"owner\":"@ + (enc_opt_str(x.deep_view().owner) + (",\"repo\":"@ + (enc_opt_str(x.deep_view().repo) + (",\"default_branch\":"@ + (enc_str(x.deep_view().default_branch) + (",\"cloned_at\":"@ + (enc_opt_str(x.deep_view().cloned_at) + ("}"@))))))))));
        lemma_assoc(old(out)@ + "{\"id\":"@, enc_str(x.deep_view().id), ",\"path\":"@ + (enc_str(x.deep_view().path) + (",\"owner\":"@ + (enc_opt_str(x.deep_view().owner) + (",\"repo\":"@ + (enc_opt_str(x.deep_view().repo) + (",\"default_branch\":"@ + (enc_str(x.deep_view().default_branch) + (",\"cloned_at\":"@ + (enc_opt_str(x.deep_view().cloned_at) + ("}"@)))))))))));
        lemma_assoc(old(out)@, "{\"id\":"@, enc_str(x.deep_view().id) + (",\"path\":"@ + (enc_str(x.deep_view().path) + (",\"owner\":"@ + (enc_opt_str(x.deep_view().owner) + (",\"repo\":"@ + (enc_opt_str(x.deep_view().repo) + (",\"default_branch\":"@ + (enc_str(x.deep_view().default_branch) + (",\"cloned_at\":"@ + (enc_opt_str(x.deep_view().cloned_at) + ("}"@))))))))))));
        assert(out@ == old(out)@ + enc_repo(x.deep_view()));
    }
}


/// One such value at the cursor.
#[verifier::rlimit(100)]
pub fn p_repo(input: &Vec<char>, pos: usize) -> (r: Option<(StoredRepo, usize)>)
    requires
        pos <= input@.len(),
    ensures
        match sp_repo(input@.skip(pos as int)) {
            Some((v, n)) => r matches Some((rv, rp)) && rv.deep_view() == v && rp as int == pos + n
                && pos <= rp <= input@.len(),
            None => r is None,
        },
{
    let ghost s = input@.skip(pos as int);
    let (id, q0) = match p_keyed_str(input, pos, "{\"id\":") {
        Some(x) => x,
        None => {
            return None;
        },
    };
    proof { assert(input@.skip(q0 as int) =~= s.skip(q0 - pos)); }
    let (path, q1) = match p_keyed_str(input, q0, ",\"path\":") {
        Some(x) => x,
        None => {
            return None;
        },
    };
    proof { assert(input@.skip(q1 as int) =~= s.skip(q1 - pos)); }
    let (owner, q2) = match p_keyed_opt_str(input, q1, ",\"owner\":") {
        Some(x) => x,
        None => {
            return None;
        },
    };
    proof { assert(input@.skip(q2 as int) =~= s.skip(q2 - pos)); }
    let (repo, q3) = match p_keyed_opt_str(input, q2, ",\"repo\":") {
        Some(x) => x,
        None => {
            return None;
        },
    };
    proof { assert(input@.skip(q3 as int) =~= s.skip(q3 - pos)); }
    let (default_branch, q4) = match p_keyed_str(input, q3, ",\"default_branch\":") {
        Some(x) => x,
        None => {
            return None;
        },
    };
    proof { assert(input@.skip(q4 as int) =~= s.skip(q4 - pos)); }
    let (cloned_at, q5) = match p_keyed_opt_str(input, q4, ",\"cloned_at\":") {
        Some(x) => x,
        None => {
            return None;
        },
    };
    proof { assert(input@.skip(q5 as int) =~= s.skip(q5 - pos)); }
    let qz = match expect_lit(input, q5, "}") {
        Some(p) => p,
        None => {
            return None;
        },
    };
    let rv = StoredRepo { id, path, owner, repo, default_branch, cloned_at };
    Some((rv, qz))
}


/// The rendering of one such value.
pub open spec fn enc_record(v: BuildRecordView) -> Seq<char> {
    "{\"id\":"@ + (enc_str(v.id) + (",\"workflow_id\":"@ + (enc_str(v.workflow_id) + (",\"status\":"@ + (enc_str(v.status) + (",\"started_at\":"@ + (enc_str(v.started_at) + (",\"finished_at\":"@ + (enc_opt_str(v.finished_at) + (",\"duration_ms\":"@ + (enc_opt_u64(v.duration_ms) + (",\"logs\":"@ + (enc_list(v.logs, string_encoder()) + ("}"@))))))))))))))
}


/// One such value at the front of `s`.
pub open spec fn sp_record(s: Seq<char>) -> Option<(BuildRecordView, int)> {
    match sp_keyed(s, "{\"id\":"@, string_parser()) {
        None => None,
        Some((id, n0)) => {
        match sp_keyed(s.skip(n0), ",\"workflow_id\":"@, string_parser()) {
            None => None,
            Some((workflow_id, n1)) => {
            match sp_keyed(s.skip(n0 + n1), ",\"status\":"@, string_parser()) {
                None => None,
                Some((status, n2)) => {
                match sp_keyed(s.skip(n0 + n1 + n2), ",\"started_at\":"@, string_parser()) {
                    None => None,
                    Some((started_at, n3)) => {
                    match sp_keyed(s.skip(n0 + n1 + n2 + n3), ",\"finished_at\":"@, opt_str_parser()) {
                        None => None,
                        Some((finished_at, n4)) => {
                        match sp_keyed(s.skip(n0 + n1 + n2 + n3 + n4), ",\"duration_ms\":"@, opt_u64_parser()) {
                            None => None,
                            Some((duration_ms, n5)) => {
                            match sp_keyed(s.skip(n0 + n1 + n2 + n3 + n4 + n5), ",\"logs\":"@, string_list_parser()) {
                                None => None,
                                Some((logs, n6)) => {
                                match sp_lit(s.skip(n0 + n1 + n2 + n3 + n4 + n5 + n6), "}"@) {
                                    None => None,
                                    Some(nz) => Some((BuildRecordView { id, workflow_id, status, started_at, finished_at, duration_ms, logs }, n0 + n1 + n2 + n3 + n4 + n5 + n6 + nz)),
                                }
                            },
                            }
                        },
                        }
                    },
                    }
                },
                }
            },
            }
        },
        }
    },
    }
}

/// One such value, as a parser value.
pub open spec fn record_parser() -> spec_fn(Seq<char>) -> Option<(BuildRecordView, int)> {
    |s: Seq<char>| sp_record(s)
}

/// One such value, as an encoder value.
pub open spec fn record_encoder() -> spec_fn(BuildRecordView) -> Seq<char> {
    |v: BuildRecordView| enc_record(v)
}


/// Parsing an encoded value yields it back.
#[verifier::rlimit(100)]
pub proof fn lemma_record_rt(v: BuildRecordView, rest: Seq<char>)
    ensures
        sp_record(enc_record(v) + rest) == Some::<(BuildRecordView, int)>(
            (v, enc_record(v).len() as int),
        ),
        enc_record(v).len() > 0,
        (enc_record(v) + rest)[0] != ']',
{
    reveal_strlit("{\"id\":");
    let s = enc_record(v) + rest;
    let e0 = enc_str(v.id);
    let e1 = enc_str(v.workflow_id);
    let e2 = enc_str(v.status);
    let e3 = enc_str(v.started_at);
    let e4 = enc_opt_str(v.finished_at);
    let e5 = enc_opt_u64(v.duration_ms);
    let e6 = enc_list(v.logs, string_encoder());
    let t7 = "}"@ + rest;
    let t6 = ",\"logs\":"@ + (e6 + t7);
    let t5 = ",\"duration_ms\":"@ + (e5 + t6);
    let t4 = ",\"finished_at\":"@ + (e4 + t5);
    let t3 = ",\"started_at\":"@ + (e3 + t4);
    let t2 = ",\"status\":"@ + (e2 + t3);
    let t1 = ",\"workflow_id\":"@ + (e1 + t2);
    let t0 = "{\"id\":"@ + (e0 + t1);
    assert(s == t0) by {
        lemma_assoc("{\"id\":"@, e0 + (",\"workflow_id\":"@ + (e1 + (",\"status\":"@ + (e2 + (",\"started_at\":"@ + (e3 + (",\"finished_at\":"@ + (e4 + (",\"duration_ms\":"@ + (e5 + (",\"logs\":"@ + (e6 + ("}"@))))))))))))), rest);
        lemma_assoc(e0, ",\"workflow_id\":"@ + (e1 + (",\"status\":"@ + (e2 + (",\"started_at\":"@ + (e3 + (",\"finished_at\":"@ + (e4 + (",\"duration_ms\":"@ + (e5 + (",\"logs\":"@ + (e6 + ("}"@)))))))))))), rest);
        lemma_assoc(",\"workflow_id\":"@, e1 + (",\"status\":"@ + (e2 + (",\"started_at\":"@ + (e3 + (",\"finished_at\":"@ + (e4 + (",\"duration_ms\":"@ + (e5 + (",\"logs\":"@ + (e6 + ("}"@))))))))))), rest);
        lemma_assoc(e1, ",\"status\":"@ + (e2 + (",\"started_at\":"@ + (e3 + (",\"finished_at\":"@ + (e4 + (",\"duration_ms\":"@ + (e5 + (",\"logs\":"@ + (e6 + ("}"@)))))))))), rest);
        lemma_assoc(",\"status\":"@, e2 + (",\"started_at\":"@ + (e3 + (",\"finished_at\":"@ + (e4 + (",\"duration_ms\":"@ + (e5 + (",\"logs\":"@ + (e6 + ("}"@))))))))), rest);
        lemma_assoc(e2, ",\"started_at\":"@ + (e3 + (",\"finished_at\":"@ + (e4 + (",\"duration_ms\":"@ + (e5 + (",\"logs\":"@ + (e6 + ("}"@)))))))), rest);
        lemma_assoc(",\"started_at\":"@, e3 + (",\"finished_at\":"@ + (e4 + (",\"duration_ms\":"@ + (e5 + (",\"logs\":"@ + (e6 + ("}"@))))))), rest);
        lemma_assoc(e3, ",\"finished_at\":"@ + (e4 + (",\"duration_ms\":"@ + (e5 + (",\"logs\":"@ + (e6 + ("}"@)))))), rest);
        lemma_assoc(",\"finished_at\":"@, e4 + (",\"duration_ms\":"@ + (e5 + (",\"logs\":"@ + (e6 + ("}"@))))), rest);
        lemma_assoc(e4, ",\"duration_ms\":"@ + (e5 + (",\"logs\":"@ + (e6 + ("}"@)))), rest);
        lemma_assoc(",\"duration_ms\":"@, e5 + (",\"logs\":"@ + (e6 + ("}"@))), rest);
        lemma_assoc(e5, ",\"logs\":"@ + (e6 + ("}"@)), rest);
        lemma_assoc(",\"logs\":"@, e6 + ("}"@), rest);
        lemma_assoc(e6, "}"@, rest);
    }
    lemma_lit_rt("{\"id\":"@, e0 + t1);
    let m0 = ("{\"id\":"@.len() + e0.len()) as int;
    assert(sp_keyed(t0, "{\"id\":"@, string_parser()) == Some::<(Seq<char>, int)>((v.id, m0)) && t0.skip(m0) == t1 && t0.len() == m0 + t1.len()) by {
        lemma_str_rt(v.id, t1);
        assert(string_parser()(e0 + t1) == Some::<(Seq<char>, int)>((v.id, e0.len() as int)));
        lemma_keyed_rt("{\"id\":"@, string_parser(), v.id, e0, t1);
    }
    assert(s.skip(m0) == t1);
    let c0 = m0;
    let m1 = (",\"workflow_id\":"@.len() + e1.len()) as int;
    assert(sp_keyed(t1, ",\"workflow_id\":"@, string_parser()) == Some::<(Seq<char>, int)>((v.workflow_id, m1)) && t1.skip(m1) == t2 && t1.len() == m1 + t2.len()) by {
        lemma_str_rt(v.workflow_id, t2);
        assert(string_parser()(e1 + t2) == Some::<(Seq<char>, int)>((v.workflow_id, e1.len() as int)));
        lemma_keyed_rt(",\"workflow_id\":"@, string_parser(), v.workflow_id, e1, t2);
    }
    lemma_skip_skip(s, c0, m1);
    assert(s.skip(c0 + m1) == t2);
    let c1 = c0 + m1;
    let m2 = (",\"status\":"@.len() + e2.len()) as int;
    assert(sp_keyed(t2, ",\"status\":"@, string_parser()) == Some::<(Seq<char>, int)>((v.status, m2)) && t2.skip(m2) == t3 && t2.len() == m2 + t3.len()) by {
        lemma_str_rt(v.status, t3);
        assert(string_parser()(e2 + t3) == Some::<(Seq<char>, int)>((v.status, e2.len() as int)));
        lemma_keyed_rt(",\"status\":"@, string_parser(), v.status, e2, t3);
    }
    lemma_skip_skip(s, c1, m2);
    assert(s.skip(c1 + m2) == t3);
    let c2 = c1 + m2;
    let m3 = (",\"started_at\":"@.len() + e3.len()) as int;
    assert(sp_keyed(t3, ",\"started_at\":"@, string_parser()) == Some::<(Seq<char>, int)>((v.started_at, m3)) && t3.skip(m3) == t4 && t3.len() == m3 + t4.len()) by {
        lemma_str_rt(v.started_at, t4);
        assert(string_parser()(e3 + t4) == Some::<(Seq<char>, int)>((v.started_at, e3.len() as int)));
        lemma_keyed_rt(",\"started_at\":"@, string_parser(), v.started_at, e3, t4);
    }
    lemma_skip_skip(s, c2, m3);
    assert(s.skip(c2 + m3) == t4);
    let c3 = c2 + m3;
    let m4 = (",\"finished_at\":"@.len() + e4.len()) as int;
    assert(sp_keyed(t4, ",\"finished_at\":"@, opt_str_parser()) == Some::<(Option<Seq<char>>, int)>((v.finished_at, m4)) && t4.skip(m4) == t5 && t4.len() == m4 + t5.len()) by {
        lemma_opt_str_rt(v.finished_at, t5);
        assert(opt_str_parser()(e4 + t5) == Some::<(Option<Seq<char>>, int)>((v.finished_at, e4.len() as int)));
        lemma_keyed_rt(",\"finished_at\":"@, opt_str_parser(), v.finished_at, e4, t5);
    }
    lemma_skip_skip(s, c3, m4);
    assert(s.skip(c3 + m4) == t5);
    let c4 = c3 + m4;
    let m5 = (",\"duration_ms\":"@.len() + e5.len()) as int;
    assert(sp_keyed(t5, ",\"duration_ms\":"@, opt_u64_parser()) == Some::<(Option<u64>, int)>((v.duration_ms, m5)) && t5.skip(m5) == t6 && t5.len() == m5 + t6.len()) by {
        reveal_strlit(",\"logs\":");
        assert((t6)[0] == ",\"logs\":"@[0]);
        assert(!is_digit((t6)[0]));
        lemma_opt_u64_rt(v.duration_ms, t6);
        assert(opt_u64_parser()(e5 + t6) == Some::<(Option<u64>, int)>((v.duration_ms, e5.len() as int)));
        lemma_keyed_rt(",\"duration_ms\":"@, opt_u64_parser(), v.duration_ms, e5, t6);
    }
    lemma_skip_skip(s, c4, m5);
    assert(s.skip(c4 + m5) == t6);
    let c5 = c4 + m5;
    let m6 = (",\"logs\":"@.len() + e6.len()) as int;
    assert(sp_keyed(t6, ",\"logs\":"@, string_list_parser()) == Some::<(Seq<Seq<char>>, int)>((v.logs, m6)) && t6.skip(m6) == t7 && t6.len() == m6 + t7.len()) by {
        lemma_string_codec_ok(v.logs);
        lemma_list_rt(v.logs, string_parser(), string_encoder(), t7);
        assert(string_list_parser()(e6 + t7) == Some::<(Seq<Seq<char>>, int)>((v.logs, e6.len() as int)));
        lemma_keyed_rt(",\"logs\":"@, string_list_parser(), v.logs, e6, t7);
    }
    lemma_skip_skip(s, c5, m6);
    assert(s.skip(c5 + m6) == t7);
    let c6 = c5 + m6;
    lemma_lit_rt("}"@, rest);
    assert(s[0] == "{\"id\":"@[0]);
}


/// Writes one such value.
#[verifier::rlimit(100)]
pub fn w_record(out: &mut Vec<char>, x: &BuildRecord)
    ensures
        final(out)@ == old(out)@ + enc_record(x.deep_view()),
{
    w_lit(out, "{\"id\":");
    w_str(out, x.id.as_str());
    w_lit(out, ",\"workflow_id\":");
    w_str(out, x.workflow_id.as_str());
    w_lit(out, ",\"status\":");
    w_str(out, x.status.as_str());
    w_lit(out, ",\"started_at\":");
    w_str(out, x.started_at.as_str());
    w_lit(out, ",\"finished_at\":");
    w_opt_str(out, &x.finished_at);
    w_lit(out, ",\"duration_ms\":");
    w_opt_u64(out, &x.duration_ms);
    w_lit(out, ",\"logs\":");
    w_string_list(out, &x.logs);
    w_lit(out, "}");
    proof {
        lemma_assoc(old(out)@ + "{\"id\":"@ + enc_str(x.deep_view().id) + ",\"workflow_id\":"@ + enc_str(x.deep_view().workflow_id) + ",\"status\":"@ + enc_str(x.deep_view().status) + ",\"started_at\":"@ + enc_str(x.deep_view().started_at) + ",\"finished_at\":"@ + enc_opt_str(x.deep_view().finished_at) + ",\"duration_ms\":"@ + enc_opt_u64(x.deep_view().duration_ms) + ",\"logs\":"@, enc_list(x.deep_view().logs, string_encoder()), "}"@);
        lemma_assoc(old(out)@ + "{\"id\":"@ + enc_str(x.deep_view().id) + ",\"workflow_id\":"@ + enc_str(x.deep_view().workflow_id) + ",\"status\":"@ + enc_str(x.deep_view().status) + ",\"started_at\":"@ + enc_str(x.deep_view().started_at) + ",\"finished_at\":"@ + enc_opt_str(x.deep_view().finished_at) + ",\"duration_ms\":"@ + enc_opt_u64(x.deep_view().duration_ms), ",\"logs\":"@, enc_list(x.deep_view().logs, string_encoder()) + ("}"@));
        lemma_assoc(old(out)@ + "{\"id\":"@ + enc_str(x.deep_view().id) + ",\"workflow_id\":"@ + enc_str(x.deep_view().workflow_id) + ",\"status\":"@ + enc_str(x.deep_view().status) + ",\"started_at\":"@ + enc_str(x.deep_view().started_at) + ",\"finished_at\":"@ + enc_opt_str(x.deep_view().finished_at) + ",\"duration_ms\":"@, enc_opt_u64(x.deep_view().duration_ms), ",\"logs\":"@ + (enc_list(x.deep_view().logs, string_encoder()) + ("}"@)));
        lemma_assoc(old(out)@ + "{\"id\":"@ + enc_str(x.deep_view().id) + ",\"workflow_id\":"@ + enc_str(x.deep_view().workflow_id) + ",\"status\":"@ + enc_str(x.deep_view().status) + ",\"started_at\":"@ + enc_str(x.deep_view().started_at) + ",\"finished_at\":"@ + enc_opt_str(x.deep_view().finished_at), ",\"duration_ms\":"@, enc_opt_u64(x.deep_view().duration_ms) + (",\"logs\":"@ + (enc_list(x.deep_view().logs, string_encoder()) + ("}"@))));
        lemma_assoc(old(out)@ + "{\"id\":"@ + enc_str(x.deep_view().id) + ",\"workflow_id\":"@ + enc_str(x.deep_view().workflow_id) + ",\"status\":"@ + enc_str(x.deep_view().status) + ",\"started_at\":"@ + enc_str(x.deep_view().started_at) + ",\"finished_at\":"@, enc_opt_str(x.deep_view().finished_at), ",\"duration_ms\":"@ + (enc_opt_u64(x.deep_view().duration_ms) + (",\"logs\":"@ + (enc_list(x.deep_view().logs, string_encoder()) + ("}"@)))));
        lemma_assoc(old(out)@ + "{\"id\":"@ + enc_str(x.deep_view().id) + ",\"workflow_id\":"@ + enc_str(x.deep_view().workflow_id) + ",\"status\":"@ + enc_str(x.deep_view().status) + ",\"started_at\":"@ + enc_str(x.deep_view().started_at), ",\"finished_at\":"@, enc_opt_str(x.deep_view().finished_at) + (",\"duration_ms\":"@ + (enc_opt_u64(x.deep_view().duration_ms) + (",\"logs\":"@ + (enc_list(x.deep_view().logs, string_encoder()) + ("}"@))))));
        lemma_assoc(old(out)@ + "{\"id\":"@ + enc_str(x.deep_view().id) + ",\"workflow_id\":"@ + enc_str(x.deep_view().workflow_id) + ",\"status\":"@ + enc_str(x.deep_view().status) + ",\"started_at\":"@, enc_str(x.deep_view().started_at), ",\"finished_at\":"@ + (enc_opt_str(x.deep_view().finished_at) + (",\"duration_ms\":"@ + (enc_opt_u64(x.deep_view().duration_ms) + (",\"logs\":"@ + (enc_list(x.deep_view().logs, string_encoder()) + ("}"@)))))));
        lemma_assoc(old(out)@ + "{\"id\":"@ + enc_str(x.deep_view().id) + ",\"workflow_id\":"@ + enc_str(x.deep_view().workflow_id) + ",\"status\":"@ + enc_str(x.deep_view().status), ",\"started_at\":"@, enc_str(x.deep_view().started_at) + (",\"finished_at\":"@ + (enc_opt_str(x.deep_view().finished_at) + (",\"duration_ms\":"@ + (enc_opt_u64(x.deep_view().duration_ms) + (",\"logs\":"@ + (enc_list(x.deep_view().logs, string_encoder()) + ("}"@))))))));
        lemma_assoc(old(out)@ + "{\"id\":"@ + enc_str(x.deep_view().id) + ",\"workflow_id\":"@ + enc_str(x.deep_view().workflow_id) + ",\"status\":"@, enc_str(x.deep_view().status), ",\"started_at\":"@ + (enc_str(x.deep_view().started_at) + (",\"finished_at\":"@ + (enc_opt_str(x.deep_view().finished_at) + (",\"duration_ms\":"@ + (enc_opt_u64(x.deep_view().duration_ms) + (",\"logs\":"@ + (enc_list(x.deep_view().logs, string_encoder()) + ("}"@)))))))));
        lemma_assoc(old(out)@ + "{\"id\":"@ + enc_str(x.deep_view().id) + ",\"workflow_id\":"@ + enc_str(x.deep_view().workflow_id), ",\"status\":"@, enc_str(x.deep_view().status) + (",\"started_at\":"@ + (enc_str(x.deep_view().started_at) + (",\"finished_at\":"@ + (enc_opt_str(x.deep_view().finished_at) + (",\"duration_ms\":"@ + (enc_opt_u64(x.deep_view().duration_ms) + (",\"logs\":"@ + (enc_list(x.deep_view().logs, string_encoder()) + ("}"@))))))))));
        lemma_assoc(old(out)@ + "{\"id\":"@ + enc_str(x.deep_view().id) + ",\"workflow_id\":"@, enc_str(x.deep_view().workflow_id), ",\"status\":"@ + (enc_str(x.deep_view().status) + (",\"started_at\":"@ + (enc_str(x.deep_view().started_at) + (",\"finished_at\":"@ + (enc_opt_str(x.deep_view().finished_at) + (",\"duration_ms\":"@ + (enc_opt_u64(x.deep_view().duration_ms) + (",\"logs\":"@ + (enc_list(x.deep_view().logs, string_encoder()) + ("}"@)))))))))));
        lemma_assoc(old(out)@ + "{\"id\":"@ + enc_str(x.deep_view().id), ",\"workflow_id\":"@, enc_str(x.deep_view().workflow_id) + (",\"status\":"@ + (enc_str(x.deep_view().status) + (",\"started_at\":"@ + (enc_str(x.deep_view().started_at) + (",\"finished_at\":"@ + (enc_opt_str(x.deep_view().finished_at) + (",\"duration_ms\":"@ + (enc_opt_u64(x.deep_view().duration_ms) + (",\"logs\":"@ + (enc_list(x.deep_view().logs, string_encoder()) + ("}"@))))))))))));
        lemma_assoc(old(out)@ + "{\"id\":"@, enc_str(x.deep_view().id), ",\"workflow_id\":"@ + (enc_str(x.deep_view().workflow_id) + (",\"status\":"@ + (enc_str(x.deep_view().status) + (",\"started_at\":"@ + (enc_str(x.deep_view().started_at) + (",\"finished_at\":"@ + (enc_opt_str(x.deep_view().finished_at) + (",\"duration_ms\":"@ + (enc_opt_u64(x.deep_view().duration_ms) + (",\"logs\":"@ + (enc_list(x.deep_view().logs, string_encoder()) + ("}"@)))))))))))));
        lemma_assoc(old(out)@, "{\"id\":"@, enc_str(x.deep_view().id) + (",\"workflow_id\":"@ + (enc_str(x.deep_view().workflow_id) + (",\"status\":"@ + (enc_str(x.deep_view().status) + (",\"started_at\":"@ + (enc_str(x.deep_view().started_at) + (",\"finished_at\":"@ + (enc_opt_str(x.deep_view().finished_at) + (",\"duration_ms\":"@ + (enc_opt_u64(x.deep_view().duration_ms) + (",\"logs\":"@ + (enc_list(x.deep_view().logs, string_encoder()) + ("}"@))))))))))))));
        assert(out@ == old(out)@ + enc_record(x.deep_view()));
    }
}


/// One such value at the cursor.
#[verifier::rlimit(100)]
pub fn p_record(input: &Vec<char>, pos: usize) -> (r: Option<(BuildRecord, usize)>)
    requires
        pos <= input@.len(),
    ensures
        match sp_record(input@.skip(pos as int)) {
            Some((v, n)) => r matches Some((rv, rp)) && rv.deep_view() == v && rp as int == pos + n
                && pos <= rp <= input@.len(),
            None => r is None,
        },
{
    let ghost s = input@.skip(pos as int);
    let (id, q0) = match p_keyed_str(input, pos, "{\"id\":") {
        Some(x) => x,
        None => {
            return None;
        },
    };
    proof { assert(input@.skip(q0 as int) =~= s.skip(q0 - pos)); }
    let (workflow_id, q1) = match p_keyed_str(input, q0, ",\"workflow_id\":") {
        Some(x) => x,
        None => {
            return None;
        },
    };
    proof { assert(input@.skip(q1 as int) =~= s.skip(q1 - pos)); }
    let (status, q2) = match p_keyed_str(input, q1, ",\"status\":") {
        Some(x) => x,
        None => {
            return None;
        },
    };
    proof { assert(input@.skip(q2 as int) =~= s.skip(q2 - pos)); }
    let (started_at, q3) = match p_keyed_str(input, q2, ",\"started_at\":") {
        Some(x) => x,
        None => {
            return None;
        },
    };
    proof { assert(input@.skip(q3 as int) =~= s.skip(q3 - pos)); }
    let (finished_at, q4) = match p_keyed_opt_str(input, q3, ",\"finished_at\":") {
        Some(x) => x,
        None => {
            return None;
        },
    };
    proof { assert(input@.skip(q4 as int) =~= s.skip(q4 - pos)); }
    let (duration_ms, q5) = match p_keyed_opt_u64(input, q4, ",\"duration_ms\":") {
        Some(x) => x,
        None => {
            return None;
        },
    };
    proof { assert(input@.skip(q5 as int) =~= s.skip(q5 - pos)); }
    let (logs, q6) = match p_keyed_string_list(input, q5, ",\"logs\":") {
        Some(x) => x,
        None => {
            return None;
        },
    };
    proof { assert(input@.skip(q6 as int) =~= s.skip(q6 - pos)); }
    let qz = match expect_lit(input, q6, "}") {
        Some(p) => p,
        None => {
            return None;
        },
    };
    let rv = BuildRecord { id, workflow_id, status, started_at, finished_at, duration_ms, logs };
    Some((rv, qz))
}


/// A list of such values, as a parser value.
pub open spec fn workflow_list_parser() -> spec_fn(Seq<char>) -> Option<(Seq<StoredWorkflowView>, int)> {
    |s: Seq<char>| sp_list(s, workflow_parser())
}

fn p_workflow_items(input: &Vec<char>, pos: usize) -> (r: Option<(Vec<StoredWorkflow>, usize)>)
    requires
        pos <= input@.len(),
    ensures
        match sp_items(input@.skip(pos as int), workflow_parser()) {
            Some((v, n)) => r matches Some((rv, rp)) && rv.deep_view() == v && rp as int == pos + n
                && pos <= rp <= input@.len(),
            None => r is None,
        },
    decreases input@.len() - pos,
{
    let ghost s = input@.skip(pos as int);
    let ghost f = workflow_parser();
    proof {
        assert(f(s) == sp_workflow(s));
    }
    let (v0, p1) = match p_workflow(input, pos) {
        Some(x) => x,
        None => {
            return None;
        },
    };
    if !(pos < p1 && p1 < input.len()) {
        return None;
    }
    proof {
        assert(s[p1 - pos] == input@[p1 as int]);
    }
    let c = input[p1];
    if c == ']' {
        let mut rv: Vec<StoredWorkflow> = Vec::new();
        rv.push(v0);
        proof {
            assert(rv.deep_view() =~= seq![v0.deep_view()]);
        }
        Some((rv, p1 + 1))
    } else if c == ',' {
        proof {
            assert(s.skip((p1 - pos) + 1) =~= input@.skip(p1 + 1));
        }
        match p_workflow_items(input, p1 + 1) {
            Some((mut l2, p2)) => {
                let ghost l2pre = l2.deep_view();
                l2.insert(0, v0);
                proof {
                    assert(l2.deep_view() =~= seq![v0.deep_view()] + l2pre);
                }
                Some((l2, p2))
            },
            None => None,
        }
    } else {
        None
    }
}

fn p_workflow_list(input: &Vec<char>, pos: usize) -> (r: Option<(Vec<StoredWorkflow>, usize)>)
    requires
        pos <= input@.len(),
    ensures
        match sp_list(input@.skip(pos as int), workflow_parser()) {
            Some((v, n)) => r matches Some((rv, rp)) && rv.deep_view() == v && rp as int == pos + n
                && pos <= rp <= input@.len(),
            None => r is None,
        },
{
    let ghost s = input@.skip(pos as int);
    if input.len() - pos < 2 {
        return None;
    }
    proof {
        assert(s[0] == input@[pos as int]);
        assert(s[1] == input@[pos + 1]);
    }
    if input[pos] != '[' {
        return None;
    }
    if input[pos + 1] == ']' {
        let rv: Vec<StoredWorkflow> = Vec::new();
        proof {
            assert(rv.deep_view() =~= Seq::<StoredWorkflowView>::empty());
        }
        return Some((rv, pos + 2));
    }
    proof {
        assert(s.skip(1) =~= input@.skip(pos + 1));
    }
    match p_workflow_items(input, pos + 1) {
        Some((rv, rp)) => Some((rv, rp)),
        None => None,
    }
}

fn p_keyed_workflow_list(input: &Vec<char>, pos: usize, key: &str) -> (r: Option<(Vec<StoredWorkflow>, usize)>)
    requires
        pos <= input@.len(),
    ensures
        match sp_keyed(input@.skip(pos as int), key@, workflow_list_parser()) {
            Some((v, n)) => r matches Some((rv, rp)) && rv.deep_view() == v && rp as int == pos + n
                && pos <= rp <= input@.len(),
            None => r is None,
        },
{
    proof {
        reveal(sp_keyed);
    }
    let ghost s = input@.skip(pos as int);
    let p0 = match expect_lit(input, pos, key) {
        Some(p) => p,
        None => {
            return None;
        },
    };
    proof {
        assert(input@.skip(p0 as int) =~= s.skip(p0 - pos));
        assert(workflow_list_parser()(s.skip(p0 - pos)) == sp_list(input@.skip(p0 as int), workflow_parser()));
    }
    match p_workflow_list(input, p0) {
        Some((rv, rp)) => Some((rv, rp)),
        None => None,
    }
}

fn w_workflow_items(out: &mut Vec<char>, l: &Vec<StoredWorkflow>, i: usize)
    requires
        i < l@.len(),
    ensures
        final(out)@ == old(out)@ + enc_items(l.deep_view().skip(i as int), workflow_encoder()),
    decreases l@.len() - i,
{
    let ghost dv = l.deep_view().skip(i as int);
    let ghost enc = workflow_encoder();
    proof {
        assert(dv[0] == l.deep_view()[i as int]);
        assert(enc(dv[0]) == enc_workflow(l@[i as int].deep_view()));
    }
    w_workflow(out, &l[i]);
    let n = l.len();
    if i < n - 1 {
        out.push(',');
        proof {
            assert(dv.drop_first() =~= l.deep_view().skip(i + 1));
        }
        w_workflow_items(out, l, i + 1);
        proof {
            assert(old(out)@ + enc_items(dv, enc) =~= out@);
        }
    } else {
        proof {
            assert(dv.len() == 1);
            assert(old(out)@ + enc_items(dv, enc) =~= out@);
        }
    }
}

fn w_workflow_list(out: &mut Vec<char>, l: &Vec<StoredWorkflow>)
    ensures
        final(out)@ == old(out)@ + enc_list(l.deep_view(), workflow_encoder()),
{
    out.push('[');
    if l.len() > 0 {
        proof {
            assert(l.deep_view().skip(0) =~= l.deep_view());
        }
        w_workflow_items(out, l, 0);
    } else {
        proof {
            assert(l.deep_view().len() == 0);
        }
    }
    out.push(']');
    proof {
        assert(old(out)@ + enc_list(l.deep_view(), workflow_encoder()) =~= out@);
    }
}


proof fn lemma_workflow_codec_ok(l: Seq<StoredWorkflowView>)
    ensures
        element_codec_ok(l, workflow_parser(), workflow_encoder()),
{
    let f = workflow_parser();
    let enc = workflow_encoder();
    assert forall|v: StoredWorkflowView, r2: Seq<char>| l.contains(v) implies #[trigger] f(enc(v) + r2)
        == Some::<(StoredWorkflowView, int)>((v, enc(v).len() as int)) by {
        lemma_workflow_rt(v, r2);
    }
    assert forall|v: StoredWorkflowView| l.contains(v) implies (#[trigger] enc(v)).len() > 0 && enc(v)[0]
        != ']' by {
        lemma_workflow_rt(v, Seq::<char>::empty());
        assert((enc_workflow(v) + Seq::<char>::empty())[0] == enc_workflow(v)[0]);
    }
}


/// A list of such values, as a parser value.
pub open spec fn action_list_parser() -> spec_fn(Seq<char>) -> Option<(Seq<StoredActionView>, int)> {
    |s: Seq<char>| sp_list(s, action_parser())
}

fn p_action_items(input: &Vec<char>, pos: usize) -> (r: Option<(Vec<StoredAction>, usize)>)
    requires
        pos <= input@.len(),
    ensures
        match sp_items(input@.skip(pos as int), action_parser()) {
            Some((v, n)) => r matches Some((rv, rp)) && rv.deep_view() == v && rp as int == pos + n
                && pos <= rp <= input@.len(),
            None => r is None,
        },
    decreases input@.len() - pos,
{
    let ghost s = input@.skip(pos as int);
    let ghost f = action_parser();
    proof {
        assert(f(s) == sp_action(s));
    }
    let (v0, p1) = match p_action(input, pos) {
        Some(x) => x,
        None => {
            return None;
        },
    };
    if !(pos < p1 && p1 < input.len()) {
        return None;
    }
    proof {
        assert(s[p1 - pos] == input@[p1 as int]);
    }
    let c = input[p1];
    if c == ']' {
        let mut rv: Vec<StoredAction> = Vec::new();
        rv.push(v0);
        proof {
            assert(rv.deep_view() =~= seq![v0.deep_view()]);
        }
        Some((rv, p1 + 1))
    } else if c == ',' {
        proof {
            assert(s.skip((p1 - pos) + 1) =~= input@.skip(p1 + 1));
        }
        match p_action_items(input, p1 + 1) {
            Some((mut l2, p2)) => {
                let ghost l2pre = l2.deep_view();
                l2.insert(0, v0);
                proof {
                    assert(l2.deep_view() =~= seq![v0.deep_view()] + l2pre);
                }
                Some((l2, p2))
            },
            None => None,
        }
    } else {
        None
    }
}

fn p_action_list(input: &Vec<char>, pos: usize) -> (r: Option<(Vec<StoredAction>, usize)>)
    requires
        pos <= input@.len(),
    ensures
        match sp_list(input@.skip(pos as int), action_parser()) {
            Some((v, n)) => r matches Some((rv, rp)) && rv.deep_view() == v && rp as int == pos + n
                && pos <= rp <= input@.len(),
            None => r is None,
        },
{
    let ghost s = input@.skip(pos as int);
    if input.len() - pos < 2 {
        return None;
    }
    proof {
        assert(s[0] == input@[pos as int]);
        assert(s[1] == input@[pos + 1]);
    }
    if input[pos] != '[' {
        return None;
    }
    if input[pos + 1] == ']' {
        let rv: Vec<StoredAction> = Vec::new();
        proof {
            assert(rv.deep_view() =~= Seq::<StoredActionView>::empty());
        }
        return Some((rv, pos + 2));
    }
    proof {
        assert(s.skip(1) =~= input@.skip(pos + 1));
    }
    match p_action_items(input, pos + 1) {
        Some((rv, rp)) => Some((rv, rp)),
        None => None,
    }
}

fn p_keyed_action_list(input: &Vec<char>, pos: usize, key: &str) -> (r: Option<(Vec<StoredAction>, usize)>)
    requires
        pos <= input@.len(),
    ensures
        match sp_keyed(input@.skip(pos as int), key@, action_list_parser()) {
            Some((v, n)) => r matches Some((rv, rp)) && rv.deep_view() == v && rp as int == pos + n
                && pos <= rp <= input@.len(),
            None => r is None,
        },
{
    proof {
        reveal(sp_keyed);
    }
    let ghost s = input@.skip(pos as int);
    let p0 = match expect_lit(input, pos, key) {
        Some(p) => p,
        None => {
            return None;
        },
    };
    proof {
        assert(input@.skip(p0 as int) =~= s.skip(p0 - pos));
        assert(action_list_parser()(s.skip(p0 - pos)) == sp_list(input@.skip(p0 as int), action_parser()));
    }
    match p_action_list(input, p0) {
        Some((rv, rp)) => Some((rv, rp)),
        None => None,
    }
}

fn w_action_items(out: &mut Vec<char>, l: &Vec<StoredAction>, i: usize)
    requires
        i < l@.len(),
    ensures
        final(out)@ == old(out)@ + enc_items(l.deep_view().skip(i as int), action_encoder()),
    decreases l@.len() - i,
{
    let ghost dv = l.deep_view().skip(i as int);
    let ghost enc = action_encoder();
    proof {
        assert(dv[0] == l.deep_view()[i as int]);
        assert(enc(dv[0]) == enc_action(l@[i as int].deep_view()));
    }
    w_action(out, &l[i]);
    let n = l.len();
    if i < n - 1 {
        out.push(',');
        proof {
            assert(dv.drop_first() =~= l.deep_view().skip(i + 1));
        }
        w_action_items(out, l, i + 1);
        proof {
            assert(old(out)@ + enc_items(dv, enc) =~= out@);
        }
    } else {
        proof {
            assert(dv.len() == 1);
            assert(old(out)@ + enc_items(dv, enc) =~= out@);
        }
    }
}

fn w_action_list(out: &mut Vec<char>, l: &Vec<StoredAction>)
    ensures
        final(out)@ == old(out)@ + enc_list(l.deep_view(), action_encoder()),
{
    out.push('[');
    if l.len() > 0 {
        proof {
            assert(l.deep_view().skip(0) =~= l.deep_view());
        }
        w_action_items(out, l, 0);
    } else {
        proof {
            assert(l.deep_view().len() == 0);
        }
    }
    out.push(']');
    proof {
        assert(old(out)@ + enc_list(l.deep_view(), action_encoder()) =~= out@);
    }
}


proof fn lemma_action_codec_ok(l: Seq<StoredActionView>)
    ensures
        element_codec_ok(l, action_parser(), action_encoder()),
{
    let f = action_parser();
    let enc = action_encoder();
    assert forall|v: StoredActionView, r2: Seq<char>| l.contains(v) implies #[trigger] f(enc(v) + r2)
        == Some::<(StoredActionView, int)>((v, enc(v).len() as int)) by {
        lemma_action_rt(v, r2);
    }
    assert forall|v: StoredActionView| l.contains(v) implies (#[trigger] enc(v)).len() > 0 && enc(v)[0]
        != ']' by {
        lemma_action_rt(v, Seq::<char>::empty());
        assert((enc_action(v) + Seq::<char>::empty())[0] == enc_action(v)[0]);
    }
}


/// A list of such values, as a parser value.
pub open spec fn repo_list_parser() -> spec_fn(Seq<char>) -> Option<(Seq<StoredRepoView>, int)> {
    |s: Seq<char>| sp_list(s, repo_parser())
}

fn p_repo_items(input: &Vec<char>, pos: usize) -> (r: Option<(Vec<StoredRepo>, usize)>)
    requires
        pos <= input@.len(),
    ensures
        match sp_items(input@.skip(pos as int), repo_parser()) {
            Some((v, n)) => r matches Some((rv, rp)) && rv.deep_view() == v && rp as int == pos + n
                && pos <= rp <= input@.len(),
            None => r is None,
        },
    decreases input@.len() - pos,
{
    let ghost s = input@.skip(pos as int);
    let ghost f = repo_parser();
    proof {
        assert(f(s) == sp_repo(s));
    }
    let (v0, p1) = match p_repo(input, pos) {
        Some(x) => x,
        None => {
            return None;
        },
    };
    if !(pos < p1 && p1 < input.len()) {
        return None;
    }
    proof {
        assert(s[p1 - pos] == input@[p1 as int]);
    }
    let c = input[p1];
    if c == ']' {
        let mut rv: Vec<StoredRepo> = Vec::new();
        rv.push(v0);
        proof {
            assert(rv.deep_view() =~= seq![v0.deep_view()]);
        }
        Some((rv, p1 + 1))
    } else if c == ',' {
        proof {
            assert(s.skip((p1 - pos) + 1) =~= input@.skip(p1 + 1));
        }
        match p_repo_items(input, p1 + 1) {
            Some((mut l2, p2)) => {
                let ghost l2pre = l2.deep_view();
                l2.insert(0, v0);
                proof {
                    assert(l2.deep_view() =~= seq![v0.deep_view()] + l2pre);
                }
                Some((l2, p2))
            },
            None => None,
        }
    } else {
        None
    }
}

fn p_repo_list(input: &Vec<char>, pos: usize) -> (r: Option<(Vec<StoredRepo>, usize)>)
    requires
        pos <= input@.len(),
    ensures
        match sp_list(input@.skip(pos as int), repo_parser()) {
            Some((v, n)) => r matches Some((rv, rp)) && rv.deep_view() == v && rp as int == pos + n
                && pos <= rp <= input@.len(),
            None => r is None,
        },
{
    let ghost s = input@.skip(pos as int);
    if input.len() - pos < 2 {
        return None;
    }
    proof {
        assert(s[0] == input@[pos as int]);
        assert(s[1] == input@[pos + 1]);
    }
    if input[pos] != '[' {
        return None;
    }
    if input[pos + 1] == ']' {
        let rv: Vec<StoredRepo> = Vec::new();
        proof {
            assert(rv.deep_view() =~= Seq::<StoredRepoView>::empty());
        }
        return Some((rv, pos + 2));
    }
    proof {
        assert(s.skip(1) =~= input@.skip(pos + 1));
    }
    match p_repo_items(input, pos + 1) {
        Some((rv, rp)) => Some((rv, rp)),
        None => None,
    }
}

fn p_keyed_repo_list(input: &Vec<char>, pos: usize, key: &str) -> (r: Option<(Vec<StoredRepo>, usize)>)
    requires
        pos <= input@.len(),
    ensures
        match sp_keyed(input@.skip(pos as int), key@, repo_list_parser()) {
            Some((v, n)) => r matches Some((rv, rp)) && rv.deep_view() == v && rp as int == pos + n
                && pos <= rp <= input@.len(),
            None => r is None,
        },
{
    proof {
        reveal(sp_keyed);
    }
    let ghost s = input@.skip(pos as int);
    let p0 = match expect_lit(input, pos, key) {
        Some(p) => p,
        None => {
            return None;
        },
    };
    proof {
        assert(input@.skip(p0 as int) =~= s.skip(p0 - pos));
        assert(repo_list_parser()(s.skip(p0 - pos)) == sp_list(input@.skip(p0 as int), repo_parser()));
    }
    match p_repo_list(input, p0) {
        Some((rv, rp)) => Some((rv, rp)),
        None => None,
    }
}

fn w_repo_items(out: &mut Vec<char>, l: &Vec<StoredRepo>, i: usize)
    requires
        i < l@.len(),
    ensures
        final(out)@ == old(out)@ + enc_items(l.deep_view().skip(i as int), repo_encoder()),
    decreases l@.len() - i,
{
    let ghost dv = l.deep_view().skip(i as int);
    let ghost enc = repo_encoder();
    proof {
        assert(dv[0] == l.deep_view()[i as int]);
        assert(enc(dv[0]) == enc_repo(l@[i as int].deep_view()));
    }
    w_repo(out, &l[i]);
    let n = l.len();
    if i < n - 1 {
        out.push(',');
        proof {
            assert(dv.drop_first() =~= l.deep_view().skip(i + 1));
        }
        w_repo_items(out, l, i + 1);
        proof {
            assert(old(out)@ + enc_items(dv, enc) =~= out@);
        }
    } else {
        proof {
            assert(dv.len() == 1);
            assert(old(out)@ + enc_items(dv, enc) =~= out@);
        }
    }
}

fn w_repo_list(out: &mut Vec<char>, l: &Vec<StoredRepo>)
    ensures
        final(out)@ == old(out)@ + enc_list(l.deep_view(), repo_encoder()),
{
    out.push('[');
    if l.len() > 0 {
        proof {
            assert(l.deep_view().skip(0) =~= l.deep_view());
        }
        w_repo_items(out, l, 0);
    } else {
        proof {
            assert(l.deep_view().len() == 0);
        }
    }
    out.push(']');
    proof {
        assert(old(out)@ + enc_list(l.deep_view(), repo_encoder()) =~= out@);
    }
}


proof fn lemma_repo_codec_ok(l: Seq<StoredRepoView>)
    ensures
        element_codec_ok(l, repo_parser(), repo_encoder()),
{
    let f = repo_parser();
    let enc = repo_encoder();
    assert forall|v: StoredRepoView, r2: Seq<char>| l.contains(v) implies #[trigger] f(enc(v) + r2)
        == Some::<(StoredRepoView, int)>((v, enc(v).len() as int)) by {
        lemma_repo_rt(v, r2);
    }
    assert forall|v: StoredRepoView| l.contains(v) implies (#[trigger] enc(v)).len() > 0 && enc(v)[0]
        != ']' by {
        lemma_repo_rt(v, Seq::<char>::empty());
        assert((enc_repo(v) + Seq::<char>::empty())[0] == enc_repo(v)[0]);
    }
}


/// A list of such values, as a parser value.
pub open spec fn record_list_parser() -> spec_fn(Seq<char>) -> Option<(Seq<BuildRecordView>, int)> {
    |s: Seq<char>| sp_list(s, record_parser())
}

fn p_record_items(input: &Vec<char>, pos: usize) -> (r: Option<(Vec<BuildRecord>, usize)>)
    requires
        pos <= input@.len(),
    ensures
        match sp_items(input@.skip(pos as int), record_parser()) {
            Some((v, n)) => r matches Some((rv, rp)) && rv.deep_view() == v && rp as int == pos + n
                && pos <= rp <= input@.len(),
            None => r is None,
        },
    decreases input@.len() - pos,
{
    let ghost s = input@.skip(pos as int);
    let ghost f = record_parser();
    proof {
        assert(f(s) == sp_record(s));
    }
    let (v0, p1) = match p_record(input, pos) {
        Some(x) => x,
        None => {
            return None;
        },
    };
    if !(pos < p1 && p1 < input.len()) {
        return None;
    }
    proof {
        assert(s[p1 - pos] == input@[p1 as int]);
    }
    let c = input[p1];
    if c == ']' {
        let mut rv: Vec<BuildRecord> = Vec::new();
        rv.push(v0);
        proof {
            assert(rv.deep_view() =~= seq![v0.deep_view()]);
        }
        Some((rv, p1 + 1))
    } else if c == ',' {
        proof {
            assert(s.skip((p1 - pos) + 1) =~= input@.skip(p1 + 1));
        }
        match p_record_items(input, p1 + 1) {
            Some((mut l2, p2)) => {
                let ghost l2pre = l2.deep_view();
                l2.insert(0, v0);
                proof {
                    assert(l2.deep_view() =~= seq![v0.deep_view()] + l2pre);
                }
                Some((l2, p2))
            },
            None => None,
        }
    } else {
        None
    }
}

fn p_record_list(input: &Vec<char>, pos: usize) -> (r: Option<(Vec<BuildRecord>, usize)>)
    requires
        pos <= input@.len(),
    ensures
        match sp_list(input@.skip(pos as int), record_parser()) {
            Some((v, n)) => r matches Some((rv, rp)) && rv.deep_view() == v && rp as int == pos + n
                && pos <= rp <= input@.len(),
            None => r is None,
        },
{
    let ghost s = input@.skip(pos as int);
    if input.len() - pos < 2 {
        return None;
    }
    proof {
        assert(s[0] == input@[pos as int]);
        assert(s[1] == input@[pos + 1]);
    }
    if input[pos] != '[' {
        return None;
    }
    if input[pos + 1] == ']' {
        let rv: Vec<BuildRecord> = Vec::new();
        proof {
            assert(rv.deep_view() =~= Seq::<BuildRecordView>::empty());
        }
        return Some((rv, pos + 2));
    }
    proof {
        assert(s.skip(1) =~= input@.skip(pos + 1));
    }
    match p_record_items(input, pos + 1) {
        Some((rv, rp)) => Some((rv, rp)),
        None => None,
    }
}

fn p_keyed_record_list(input: &Vec<char>, pos: usize, key: &str) -> (r: Option<(Vec<BuildRecord>, usize)>)
    requires
        pos <= input@.len(),
    ensures
        match sp_keyed(input@.skip(pos as int), key@, record_list_parser()) {
            Some((v, n)) => r matches Some((rv, rp)) && rv.deep_view() == v && rp as int == pos + n
                && pos <= rp <= input@.len(),
            None => r is None,
        },
{
    proof {
        reveal(sp_keyed);
    }
    let ghost s = input@.skip(pos as int);
    let p0 = match expect_lit(input, pos, key) {
        Some(p) => p,
        None => {
            return None;
        },
    };
    proof {
        assert(input@.skip(p0 as int) =~= s.skip(p0 - pos));
        assert(record_list_parser()(s.skip(p0 - pos)) == sp_list(input@.skip(p0 as int), record_parser()));
    }
    match p_record_list(input, p0) {
        Some((rv, rp)) => Some((rv, rp)),
        None => None,
    }
}

fn w_record_items(out: &mut Vec<char>, l: &Vec<BuildRecord>, i: usize)
    requires
        i < l@.len(),
    ensures
        final(out)@ == old(out)@ + enc_items(l.deep_view().skip(i as int), record_encoder()),
    decreases l@.len() - i,
{
    let ghost dv = l.deep_view().skip(i as int);
    let ghost enc = record_encoder();
    proof {
        assert(dv[0] == l.deep_view()[i as int]);
        assert(enc(dv[0]) == enc_record(l@[i as int].deep_view()));
    }
    w_record(out, &l[i]);
    let n = l.len();
    if i < n - 1 {
        out.push(',');
        proof {
            assert(dv.drop_first() =~= l.deep_view().skip(i + 1));
        }
        w_record_items(out, l, i + 1);
        proof {
            assert(old(out)@ + enc_items(dv, enc) =~= out@);
        }
    } else {
        proof {
            assert(dv.len() == 1);
            assert(old(out)@ + enc_items(dv, enc) =~= out@);
        }
    }
}

fn w_record_list(out: &mut Vec<char>, l: &Vec<BuildRecord>)
    ensures
        final(out)@ == old(out)@ + enc_list(l.deep_view(), record_encoder()),
{
    out.push('[');
    if l.len() > 0 {
        proof {
            assert(l.deep_view().skip(0) =~= l.deep_view());
        }
        w_record_items(out, l, 0);
    } else {
        proof {
            assert(l.deep_view().len() == 0);
        }
    }
    out.push(']');
    proof {
        assert(old(out)@ + enc_list(l.deep_view(), record_encoder()) =~= out@);
    }
}


proof fn lemma_record_codec_ok(l: Seq<BuildRecordView>)
    ensures
        element_codec_ok(l, record_parser(), record_encoder()),
{
    let f = record_parser();
    let enc = record_encoder();
    assert forall|v: BuildRecordView, r2: Seq<char>| l.contains(v) implies #[trigger] f(enc(v) + r2)
        == Some::<(BuildRecordView, int)>((v, enc(v).len() as int)) by {
        lemma_record_rt(v, r2);
    }
    assert forall|v: BuildRecordView| l.contains(v) implies (#[trigger] enc(v)).len() > 0 && enc(v)[0]
        != ']' by {
        lemma_record_rt(v, Seq::<char>::empty());
        assert((enc_record(v) + Seq::<char>::empty())[0] == enc_record(v)[0]);
    }
}


/// The rendering of one such value.
pub open spec fn enc_data(v: ServerDataView) -> Seq<char> {
    "{\"workflows\":"@ + (enc_list(v.workflows, workflow_encoder()) + (",\n\"actions\":"@ + (enc_list(v.actions, action_encoder()) + (",\n\"repos\":"@ + (enc_list(v.repos, repo_encoder()) + (",\n\"build_history\":"@ + (enc_list(v.build_history, record_encoder()) + ("}"@))))))))
}


/// One such value at the front of `s`.
pub open spec fn sp_data(s: Seq<char>) -> Option<(ServerDataView, int)> {
    match sp_keyed(s, "{\"workflows\":"@, workflow_list_parser()) {
        None => None,
        Some((workflows, n0)) => {
        match sp_keyed(s.skip(n0), ",\n\"actions\":"@, action_list_parser()) {
            None => None,
            Some((actions, n1)) => {
            match sp_keyed(s.skip(n0 + n1), ",\n\"repos\":"@, repo_list_parser()) {
                None => None,
                Some((repos, n2)) => {
                match sp_keyed(s.skip(n0 + n1 + n2), ",\n\"build_history\":"@, record_list_parser()) {
                    None => None,
                    Some((build_history, n3)) => {
                    match sp_lit(s.skip(n0 + n1 + n2 + n3), "}"@) {
                        None => None,
                        Some(nz) => Some((ServerDataView { workflows, actions, repos, build_history }, n0 + n1 + n2 + n3 + nz)),
                    }
                },
                }
            },
            }
        },
        }
    },
    }
}

/// One such value, as a parser value.
pub open spec fn data_parser() -> spec_fn(Seq<char>) -> Option<(ServerDataView, int)> {
    |s: Seq<char>| sp_data(s)
}

/// One such value, as an encoder value.
pub open spec fn data_encoder() -> spec_fn(ServerDataView) -> Seq<char> {
    |v: ServerDataView| enc_data(v)
}


/// Parsing an encoded value yields it back.
#[verifier::rlimit(100)]
pub proof fn lemma_data_rt(v: ServerDataView, rest: Seq<char>)
    ensures
        sp_data(enc_data(v) + rest) == Some::<(ServerDataView, int)>(
            (v, enc_data(v).len() as int),
        ),
        enc_data(v).len() > 0,
        (enc_data(v) + rest)[0] != ']',
{
    reveal_strlit("{\"workflows\":");
    let s = enc_data(v) + rest;
    let e0 = enc_list(v.workflows, workflow_encoder());
    let e1 = enc_list(v.actions, action_encoder());
    let e2 = enc_list(v.repos, repo_encoder());
    let e3 = enc_list(v.build_history, record_encoder());
    let t4 = "}"@ + rest;
    let t3 = ",\n\"build_history\":"@ + (e3 + t4);
    let t2 = ",\n\"repos\":"@ + (e2 + t3);
    let t1 = ",\n\"actions\":"@ + (e1 + t2);
    let t0 = "{\"workflows\":"@ + (e0 + t1);
    assert(s == t0) by {
        lemma_assoc("{\"workflows\":"@, e0 + (",\n\"actions\":"@ + (e1 + (",\n\"repos\":"@ + (e2 + (",\n\"build_history\":"@ + (e3 + ("}"@))))))), rest);
        lemma_assoc(e0, ",\n\"actions\":"@ + (e1 + (",\n\"repos\":"@ + (e2 + (",\n\"build_history\":"@ + (e3 + ("}"@)))))), rest);
        lemma_assoc(",\n\"actions\":"@, e1 + (",\n\"repos\":"@ + (e2 + (",\n\"build_history\":"@ + (e3 + ("}"@))))), rest);
        lemma_assoc(e1, ",\n\"repos\":"@ + (e2 + (",\n\"build_history\":"@ + (e3 + ("}"@)))), rest);
        lemma_assoc(",\n\"repos\":"@, e2 + (",\n\"build_history\":"@ + (e3 + ("}"@))), rest);
        lemma_assoc(e2, ",\n\"build_history\":"@ + (e3 + ("}"@)), rest);
        lemma_assoc(",\n\"build_history\":"@, e3 + ("}"@), rest);
        lemma_assoc(e3, "}"@, rest);
    }
    lemma_lit_rt("{\"workflows\":"@, e0 + t1);
    let m0 = ("{\"workflows\":"@.len() + e0.len()) as int;
    assert(sp_keyed(t0, "{\"workflows\":"@, workflow_list_parser()) == Some::<(Seq<StoredWorkflowView>, int)>((v.workflows, m0)) && t0.skip(m0) == t1 && t0.len() == m0 + t1.len()) by {
        lemma_workflow_codec_ok(v.workflows);
        lemma_list_rt(v.workflows, workflow_parser(), workflow_encoder(), t1);
        assert(workflow_list_parser()(e0 + t1) == Some::<(Seq<StoredWorkflowView>, int)>((v.workflows, e0.len() as int)));
        lemma_keyed_rt("{\"workflows\":"@, workflow_list_parser(), v.workflows, e0, t1);
    }
    assert(s.skip(m0) == t1);
    let c0 = m0;
    let m1 = (",\n\"actions\":"@.len() + e1.len()) as int;
    assert(sp_keyed(t1, ",\n\"actions\":"@, action_list_parser()) == Some::<(Seq<StoredActionView>, int)>((v.actions, m1)) && t1.skip(m1) == t2 && t1.len() == m1 + t2.len()) by {
        lemma_action_codec_ok(v.actions);
        lemma_list_rt(v.actions, action_parser(), action_encoder(), t2);
        assert(action_list_parser()(e1 + t2) == Some::<(Seq<StoredActionView>, int)>((v.actions, e1.len() as int)));
        lemma_keyed_rt(",\n\"actions\":"@, action_list_parser(), v.actions, e1, t2);
    }
    lemma_skip_skip(s, c0, m1);
    assert(s.skip(c0 + m1) == t2);
    let c1 = c0 + m1;
    let m2 = (",\n\"repos\":"@.len() + e2.len()) as int;
    assert(sp_keyed(t2, ",\n\"repos\":"@, repo_list_parser()) == Some::<(Seq<StoredRepoView>, int)>((v.repos, m2)) && t2.skip(m2) == t3 && t2.len() == m2 + t3.len()) by {
        lemma_repo_codec_ok(v.repos);
        lemma_list_rt(v.repos, repo_parser(), repo_encoder(), t3);
        assert(repo_list_parser()(e2 + t3) == Some::<(Seq<StoredRepoView>, int)>((v.repos, e2.len() as int)));
        lemma_keyed_rt(",\n\"repos\":"@, repo_list_parser(), v.repos, e2, t3);
    }
    lemma_skip_skip(s, c1, m2);
    assert(s.skip(c1 + m2) == t3);
    let c2 = c1 + m2;
    let m3 = (",\n\"build_history\":"@.len() + e3.len()) as int;
    assert(sp_keyed(t3, ",\n\"build_history\":"@, record_list_parser()) == Some::<(Seq<BuildRecordView>, int)>((v.build_history, m3)) && t3.skip(m3) == t4 && t3.len() == m3 + t4.len()) by {
        lemma_record_codec_ok(v.build_history);
        lemma_list_rt(v.build_history, record_parser(), record_encoder(), t4);
        assert(record_list_parser()(e3 + t4) == Some::<(Seq<BuildRecordView>, int)>((v.build_history, e3.len() as int)));
        lemma_keyed_rt(",\n\"build_history\":"@, record_list_parser(), v.build_history, e3, t4);
    }
    lemma_skip_skip(s, c2, m3);
    assert(s.skip(c2 + m3) == t4);
    let c3 = c2 + m3;
    lemma_lit_rt("}"@, rest);
    assert(s[0] == "{\"workflows\":"@[0]);
}


/// Writes one such value.
#[verifier::rlimit(100)]
pub fn w_data(out: &mut Vec<char>, x: &ServerData)
    ensures
        final(out)@ == old(out)@ + enc_data(x.deep_view()),
{
    w_lit(out, "{\"workflows\":");
    w_workflow_list(out, &x.workflows);
    w_lit(out, ",\n\"actions\":");
    w_action_list(out, &x.actions);
    w_lit(out, ",\n\"repos\":");
    w_repo_list(out, &x.repos);
    w_lit(out, ",\n\"build_history\":");
    w_record_list(out, &x.build_history);
    w_lit(out, "}");
    proof {
        lemma_assoc(old(out)@ + "{\"workflows\":"@ + enc_list(x.deep_view().workflows, workflow_encoder()) + ",\n\"actions\":"@ + enc_list(x.deep_view().actions, action_encoder()) + ",\n\"repos\":"@ + enc_list(x.deep_view().repos, repo_encoder()) + ",\n\"build_history\":"@, enc_list(x.deep_view().build_history, record_encoder()), "}"@);
        lemma_assoc(old(out)@ + "{\"workflows\":"@ + enc_list(x.deep_view().workflows, workflow_encoder()) + ",\n\"actions\":"@ + enc_list(x.deep_view().actions, action_encoder()) + ",\n\"repos\":"@ + enc_list(x.deep_view().repos, repo_encoder()), ",\n\"build_history\":"@, enc_list(x.deep_view().build_history, record_encoder()) + ("}"@));
        lemma_assoc(old(out)@ + "{\"workflows\":"@ + enc_list(x.deep_view().workflows, workflow_encoder()) + ",\n\"actions\":"@ + enc_list(x.deep_view().actions, action_encoder()) + ",\n\"repos\":"@, enc_list(x.deep_view().repos, repo_encoder()), ",\n\"build_history\":"@ + (enc_list(x.deep_view().build_history, record_encoder()) + ("}"@)));
        lemma_assoc(old(out)@ + "{\"workflows\":"@ + enc_list(x.deep_view().workflows, workflow_encoder()) + ",\n\"actions\":"@ + enc_list(x.deep_view().actions, action_encoder()), ",\n\"repos\":"@, enc_list(x.deep_view().repos, repo_encoder()) + (",\n\"build_history\":"@ + (enc_list(x.deep_view().build_history, record_encoder()) + ("}"@))));
        lemma_assoc(old(out)@ + "{\"workflows\":"@ + enc_list(x.deep_view().workflows, workflow_encoder()) + ",\n\"actions\":"@, enc_list(x.deep_view().actions, action_encoder()), ",\n\"repos\":"@ + (enc_list(x.deep_view().repos, repo_encoder()) + (",\n\"build_history\":"@ + (enc_list(x.deep_view().build_history, record_encoder()) + ("}"@)))));
        lemma_assoc(old(out)@ + "{\"workflows\":"@ + enc_list(x.deep_view().workflows, workflow_encoder()), ",\n\"actions\":"@, enc_list(x.deep_view().actions, action_encoder()) + (",\n\"repos\":"@ + (enc_list(x.deep_view().repos, repo_encoder()) + (",\n\"build_history\":"@ + (enc_list(x.deep_view().build_history, record_encoder()) + ("}"@))))));
        lemma_assoc(old(out)@ + "{\"workflows\":"@, enc_list(x.deep_view().workflows, workflow_encoder()), ",\n\"actions\":"@ + (enc_list(x.deep_view().actions, action_encoder()) + (",\n\"repos\":"@ + (enc_list(x.deep_view().repos, repo_encoder()) + (",\n\"build_history\":"@ + (enc_list(x.deep_view().build_history, record_encoder()) + ("}"@)))))));
        lemma_assoc(old(out)@, "{\"workflows\":"@, enc_list(x.deep_view().workflows, workflow_encoder()) + (",\n\"actions\":"@ + (enc_list(x.deep_view().actions, action_encoder()) + (",\n\"repos\":"@ + (enc_list(x.deep_view().repos, repo_encoder()) + (",\n\"build_history\":"@ + (enc_list(x.deep_view().build_history, record_encoder()) + ("}"@))))))));
        assert(out@ == old(out)@ + enc_data(x.deep_view()));
    }
}


/// One such value at the cursor.
#[verifier::rlimit(100)]
pub fn p_data(input: &Vec<char>, pos: usize) -> (r: Option<(ServerData, usize)>)
    requires
        pos <= input@.len(),
    ensures
        match sp_data(input@.skip(pos as int)) {
            Some((v, n)) => r matches Some((rv, rp)) && rv.deep_view() == v && rp as int == pos + n
                && pos <= rp <= input@.len(),
            None => r is None,
        },
{
    let ghost s = input@.skip(pos as int);
    let (workflows, q0) = match p_keyed_workflow_list(input, pos, "{\"workflows\":") {
        Some(x) => x,
        None => {
            return None;
        },
    };
    proof { assert(input@.skip(q0 as int) =~= s.skip(q0 - pos)); }
    let (actions, q1) = match p_keyed_action_list(input, q0, ",\n\"actions\":") {
        Some(x) => x,
        None => {
            return None;
        },
    };
    proof { assert(input@.skip(q1 as int) =~= s.skip(q1 - pos)); }
    let (repos, q2) = match p_keyed_repo_list(input, q1, ",\n\"repos\":") {
        Some(x) => x,
        None => {
            return None;
        },
    };
    proof { assert(input@.skip(q2 as int) =~= s.skip(q2 - pos)); }
    let (build_history, q3) = match p_keyed_record_list(input, q2, ",\n\"build_history\":") {
        Some(x) => x,
        None => {
            return None;
        },
    };
    proof { assert(input@.skip(q3 as int) =~= s.skip(q3 - pos)); }
    let qz = match expect_lit(input, q3, "}") {
        Some(p) => p,
        None => {
            return None;
        },
    };
    let rv = ServerData { workflows, actions, repos, build_history };
    Some((rv, qz))
}


/// What a whole snapshot text denotes: the aggregate, provided the text is
/// exactly one encoded aggregate with nothing after it.
pub open spec fn parses_data(s: Seq<char>) -> Option<ServerDataView> {
    match sp_data(s) {
        Some((v, n)) => if n == s.len() {
            Some(v)
        } else {
            None
        },
        None => None,
    }
}

/// Renders the aggregate for durable storage.
pub fn encode_server_data(d: &ServerData) -> (r: String)
    ensures
        r@ == enc_data(d.deep_view()),
{
    let mut out: Vec<char> = Vec::new();
    w_data(&mut out, d);
    string_from_chars(&out)
}

/// Reads an aggregate back from a snapshot text.
pub fn parse_server_data(text: &str) -> (r: Option<ServerData>)
    ensures
        match parses_data(text@) {
            Some(v) => r matches Some(d) && d.deep_view() == v,
            None => r is None,
        },
{
    let input = chars_of(text);
    proof {
        assert(input@.skip(0) =~= input@);
    }
    match p_data(&input, 0) {
        Some((d, p)) => {
            if p == input.len() {
                Some(d)
            } else {
                None
            }
        },
        None => None,
    }
}

/// Saving and reloading the aggregate reproduces an equal aggregate: the
/// snapshot parser inverts the snapshot encoder on every store state.
pub proof fn lemma_snapshot_round_trip(d: ServerDataView)
    ensures
        parses_data(enc_data(d)) == Some(d),
{
    lemma_data_rt(d, Seq::<char>::empty());
    assert(enc_data(d) + Seq::<char>::empty() =~= enc_data(d));
}

} // verus!
