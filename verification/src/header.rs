//! The runtime header prepended to every instrumented file.
//!
//! Self-rewriting functions keep the hot path cheap.
//!
//! Activation: `__STRYKER_ACTIVE_MUTANT__` env var, read once at first load.
//! Hit limit: `__STRYKER_HIT_LIMIT__` env var; exceeding it throws, which the
//! runner maps to Timeout (infinite-loop detection).
use vstd::prelude::*;

verus! {

/// Marker present in every instrumented file; restoring a project looks for it
/// as a second-pass safety net.
pub const HEADER_MARKER: &'static str = "/* stryker-rs instrumentation header */";

/// What the header says up to the first mention of the namespace.
pub const HEADER_START: &'static str = "
function stryNS_9fa48() {
  var g = typeof globalThis === \"object\" && globalThis || typeof global === \"object\" && global || this;
  var ns = g.";

/// What stands between the two mentions of the namespace.
pub const HEADER_MIDDLE: &'static str = " || (g.";

/// What the header says behind the second mention of the namespace, up to its end.
pub const HEADER_END: &'static str = " = {});
  var env = typeof process === \"object\" && process && process.env || {};
  if (ns.activeMutant === undefined && env.__STRYKER_ACTIVE_MUTANT__) {
    ns.activeMutant = env.__STRYKER_ACTIVE_MUTANT__;
  }
  if (ns.hitLimit === undefined && env.__STRYKER_HIT_LIMIT__) {
    ns.hitLimit = parseInt(env.__STRYKER_HIT_LIMIT__, 10);
    ns.hitCount = 0;
  }
  function retrieveNS() { return ns; }
  stryNS_9fa48 = retrieveNS;
  return retrieveNS();
}
stryNS_9fa48();
function stryCov_9fa48() {
  var ns = stryNS_9fa48();
  var cov = ns.mutantCoverage || (ns.mutantCoverage = { static: {}, perTest: {} });
  function cover() {
    var c = cov.static;
    if (ns.currentTestId !== undefined) {
      c = cov.perTest[ns.currentTestId] = cov.perTest[ns.currentTestId] || {};
    }
    var a = arguments;
    for (var i = 0; i < a.length; i++) {
      c[a[i]] = (c[a[i]] || 0) + 1;
    }
  }
  stryCov_9fa48 = cover;
  cover.apply(null, arguments);
}
function stryMutAct_9fa48(id) {
  var ns = stryNS_9fa48();
  function isActive(id) {
    if (ns.activeMutant === id) {
      if (ns.hitCount !== undefined && ++ns.hitCount > ns.hitLimit) {
        throw new Error(\"Stryker: Hit limit reached (\" + ns.hitCount + \")\");
      }
      return true;
    }
    return false;
  }
  stryMutAct_9fa48 = isActive;
  return isActive(id);
";

/// The end of the header.
pub const HEADER_LAST: &'static str = "}\n";

/// The line that turns off type checking, where it is asked for.
pub open spec fn nocheck_text(ts_nocheck: bool) -> Seq<char> {
    if ts_nocheck {
        "// @ts-nocheck\n"@
    } else {
        Seq::empty()
    }
}

/// The header for a namespace.
pub open spec fn header_text(namespace: Seq<char>, ts_nocheck: bool) -> Seq<char> {
    nocheck_text(ts_nocheck) + HEADER_MARKER@ + HEADER_START@ + namespace + HEADER_MIDDLE@ + namespace
        + HEADER_END@ + HEADER_LAST@
}

/// `namespace` is the global object property, default `__stryker__`.
pub fn header(namespace: &str, ts_nocheck: bool) -> (r: String)
    ensures
        r@ == header_text(namespace@, ts_nocheck),
{
    let mut out = String::new();
    if ts_nocheck {
        out.append("// @ts-nocheck\n");
    }
    proof {
        assert(out@ =~= nocheck_text(ts_nocheck));
    }
    out.append(HEADER_MARKER);
    out.append(HEADER_START);
    out.append(namespace);
    out.append(HEADER_MIDDLE);
    out.append(namespace);
    out.append(HEADER_END);
    out.append(HEADER_LAST);
    out
}

/// The marker stands in every header.
pub proof fn law_marker_in_every_header(namespace: Seq<char>, ts_nocheck: bool)
    ensures
        crate::text::has(header_text(namespace, ts_nocheck), HEADER_MARKER@),
{
    let hay = header_text(namespace, ts_nocheck);
    let at = nocheck_text(ts_nocheck).len() as int;
    assert(hay.subrange(at, at + HEADER_MARKER@.len()) =~= HEADER_MARKER@);
    crate::text::lemma_occurs_is_found(hay, HEADER_MARKER@, 0, at);
}

/// Every header begins with a comment and ends with a line.
pub proof fn lemma_header_ends(namespace: Seq<char>, ts_nocheck: bool)
    ensures
        header_text(namespace, ts_nocheck).len() > 0,
        header_text(namespace, ts_nocheck)[0] == '/',
        header_text(namespace, ts_nocheck).last() == '\n',
{
    reveal_strlit("// @ts-nocheck\n");
    reveal_strlit("/* stryker-rs instrumentation header */");
    reveal_strlit("}\n");
    let text = header_text(namespace, ts_nocheck);
    assert(HEADER_LAST@.last() == '\n');
    assert(text.last() == HEADER_LAST@.last());
    if ts_nocheck {
        assert(text[0] == "// @ts-nocheck\n"@[0]);
    } else {
        assert(text[0] == HEADER_MARKER@[0]);
    }
}

/// A header turns type checking off in its first line, exactly where that is asked
/// for, and names the namespace twice behind its marker.
pub proof fn law_headers_are_as_asked(namespace: Seq<char>)
    ensures
        header_text(namespace, true) == "// @ts-nocheck\n"@ + header_text(namespace, false),
        header_text(namespace, false) == HEADER_MARKER@ + HEADER_START@ + namespace
            + HEADER_MIDDLE@ + namespace + HEADER_END@ + HEADER_LAST@,
{
    assert(header_text(namespace, false) =~= HEADER_MARKER@ + HEADER_START@ + namespace
        + HEADER_MIDDLE@ + namespace + HEADER_END@ + HEADER_LAST@);
    assert(header_text(namespace, true) =~= "// @ts-nocheck\n"@ + header_text(namespace, false));
}

} // verus!
