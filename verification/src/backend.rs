//! The backends: lowering a planned scene to the modules that ship, and
//! choosing between candidate builds.

pub mod emit;
pub mod emit_expressions;
pub mod layers;
pub mod pretty;
pub mod rn;
pub mod runtime;
pub mod shake;
pub mod skia;

use vstd::prelude::*;
use crate::backend::emit::{anchored, byte_len, caps_list, spec_caps_list, imported_modules, minified_or, runtime_size_with, spec_imported_modules, Mod};
use crate::caps::{names_of, spec_names_of, Caps};
use crate::lines::views;
use crate::text::{chars_of, insert_sorted, push_str, str_views, string_of, string_views, strictly_sorted};

verus! {

/// The length of flate2's gzip stream at the best compression level for a
/// module source; `None` when the encoder reports an error.
pub uninterp spec fn gzipped_len(src: Seq<char>) -> Option<nat>;

/// Gzip a source with flate2 (`GzEncoder::new` over a `Vec` at
/// `Compression::best()`, `write_all`, `finish`) and give the length of the
/// stream. Claimed: the length is a fixed function of the source — the
/// default header carries no time stamp and no file name — named
/// [`gzipped_len`]; `None` exactly when writing or finishing fails.
#[verifier::external_body]
fn gzip_len(src: &str) -> (r: Option<usize>)
    ensures
        match gzipped_len(src@) {
            Some(n) => r == Some(n as usize),
            None => r is None,
        },
{
    let mut e = flate2::write::GzEncoder::new(Vec::new(), flate2::Compression::best());
    if std::io::Write::write_all(&mut e, src.as_bytes()).is_err() {
        return None;
    }
    e.finish().ok().map(|v| v.len())
}

/// The compressed length of a source, or its own length when it does not
/// compress.
pub open spec fn spec_compressed_len(src: Seq<char>) -> int {
    match gzipped_len(src) {
        Some(n) => n as usize as int,
        None => byte_len(src) as usize as int,
    }
}

/// Compressed length, for choosing between two encodings of the same
/// animation.
///
/// The choice has to be made on compressed bytes: instancing replaces inlined
/// copies with a template plus expansion code, and gzip already deduplicates
/// copies that fit in its window, so raw bytes can pick the wrong build.
pub fn compressed_len(src: &str) -> (r: usize)
    ensures
        r == spec_compressed_len(src@),
{
    match gzip_len(src) {
        Some(n) => n,
        None => src.len(),
    }
}

/// Whether the instanced build wins over the inlined one: it must compress
/// smaller, and its bindings must not run on per-instance clocks, which are
/// correct but measurably slower per frame.
pub fn prefer_instanced(inlined: &str, instanced: &str, instance_clocks: bool) -> (r: bool)
    ensures
        r == (spec_compressed_len(instanced@) < spec_compressed_len(inlined@) && !instance_clocks),
{
    let smaller = compressed_len(instanced) < compressed_len(inlined);
    smaller && !instance_clocks
}

// ---------------------------------------------------------------------------
// The report
// ---------------------------------------------------------------------------

/// What the compiler decided for one animation, alongside the module it built.
///
/// Every field is a decision the compile made, not a property of the source:
/// two animations of the same size can compile to a static string and to a
/// heavily instanced scene.
pub struct Report {
    pub js: String,
    /// Capability names: the runtime features this animation reaches, sorted.
    pub caps: Vec<String>,
    /// Runtime modules an extern build imports, sorted. Empty for a static
    /// animation.
    pub modules: Vec<String>,
    /// Minified bytes of just those modules: the slice a bundler ships.
    pub runtime_slice: usize,
    /// Nothing varies over time: no runtime, no data table, no frame loop.
    pub is_static: bool,
    /// Precomps were planned once and replayed per use.
    pub instanced: bool,
    /// Repeated subtrees were factored out and are expanded at mount.
    pub templated: bool,
    /// Elements in the fully expanded document.
    pub elements: usize,
    /// Per-frame updaters the runtime will build, counting instance replays.
    pub bindings: usize,
    /// Layer records the expression engine can observe.
    pub records: usize,
    /// The self-contained build is code rather than an interpreter plus a
    /// payload.
    pub generated: bool,
    /// Instancing put bindings on per-instance clocks.
    pub instance_clocks: bool,
}

/// One placement of an instanced precomp: which asset it replays, and the
/// clock slot of its parent (`0`: the document's own clock).
#[derive(Clone, Copy, PartialEq, Eq, Structural, Debug)]
pub struct InstanceUse {
    pub asset: u32,
    pub parent_slot: u32,
}

/// What the report reads of one precomp asset.
pub struct AssetFacts {
    /// Its bindings, replayed once per use.
    pub bindings: usize,
    /// The clock slot of each of its bindings (`0`: the instance's own).
    pub slots: Vec<u32>,
    /// Its layer records.
    pub records: usize,
}

/// What a finished scene says of itself, as the report reads it.
pub struct SceneFacts {
    pub caps: Caps,
    pub is_static: bool,
    /// The fully expanded markup.
    pub markup: String,
    /// Template entries: subtrees factored out for expansion at mount.
    pub templates: usize,
    /// The document's own bindings.
    pub bindings: usize,
    /// The document's own layer records.
    pub layers: usize,
    pub uses: Vec<InstanceUse>,
    pub assets: Vec<AssetFacts>,
    /// Whether the generator's code won for this scene.
    pub generated: bool,
}

/// How many `<` the first `n` characters hold.
pub open spec fn opens(s: Seq<char>, n: int) -> nat
    decreases n,
{
    if n <= 0 {
        0
    } else {
        opens(s, n - 1) + if s[n - 1] == '<' {
            1nat
        } else {
            0nat
        }
    }
}

/// How many `</` start among the first `n` characters.
pub open spec fn closes(s: Seq<char>, n: int) -> nat
    decreases n,
{
    if n <= 0 {
        0
    } else {
        closes(s, n - 1) + if n < s.len() && s[n - 1] == '<' && s[n] == '/' {
            1nat
        } else {
            0nat
        }
    }
}

/// Elements in a markup string: one per `<`, less one per closing `</`.
pub open spec fn element_count(s: Seq<char>) -> int {
    opens(s, s.len() as int) - closes(s, s.len() as int)
}

/// The bindings the first `n` uses replay.
pub open spec fn replays(uses: Seq<InstanceUse>, assets: Seq<AssetFacts>, n: int) -> nat
    decreases n,
{
    if n <= 0 {
        0
    } else {
        replays(uses, assets, n - 1) + assets[uses[n - 1].asset as int].bindings as nat
    }
}

/// The records of the first `n` assets.
pub open spec fn asset_records(assets: Seq<AssetFacts>, n: int) -> nat
    decreases n,
{
    if n <= 0 {
        0
    } else {
        asset_records(assets, n - 1) + assets[n - 1].records as nat
    }
}

/// A use runs on a clock of its own: under a parent's clock, or with a binding
/// on a clock other than the instance's.
pub open spec fn use_clocked(u: InstanceUse, assets: Seq<AssetFacts>) -> bool {
    u.parent_slot != 0 || exists|j: int|
        0 <= j < assets[u.asset as int].slots@.len() && #[trigger] assets[u.asset as int].slots@[j] != 0
}

/// Every use names an asset that exists.
pub open spec fn uses_fit(f: &SceneFacts) -> bool {
    forall|k: int| 0 <= k < f.uses@.len() ==> (#[trigger] f.uses@[k]).asset < f.assets@.len()
}

/// Code-point order, without repeats.
pub open spec fn sorted_like(r: Seq<Seq<char>>, s: Seq<Seq<char>>) -> bool {
    strictly_sorted(r) && r.to_set() == s.to_set()
}

/// The strings of a list, sorted, as owned strings.
fn sorted_strings(parts: Vec<Vec<char>>) -> (r: Vec<String>)
    ensures
        sorted_like(string_views(r@), views(parts@)),
{
    let ghost v = views(parts@);
    let mut acc: Vec<Vec<char>> = Vec::new();
    let mut i: usize = 0;
    let mut rest = parts;
    assert(strictly_sorted(views(acc@)));
    while i < rest.len()
        invariant
            i <= rest@.len(),
            views(rest@) == v,
            strictly_sorted(views(acc@)),
            views(acc@).to_set() == v.take(i as int).to_set(),
        decreases rest@.len() - i,
    {
        let x = rest[i].clone();
        let ghost before = views(acc@);
        proof {
            assert(x@ == rest@[i as int]@);
        }
        insert_sorted(&mut acc, x);
        proof {
            assert(v.take(i as int + 1) =~= v.take(i as int).push(v[i as int]));
            assert(views(rest@)[i as int] == rest@[i as int]@);
            broadcast use vstd::seq_lib::group_seq_properties;
            assert(v.take(i as int).push(v[i as int]).to_set() =~= v.take(i as int).to_set().insert(v[i as int]));
        }
        i += 1;
    }
    assert(v.take(rest@.len() as int) =~= v);
    let mut out: Vec<String> = Vec::new();
    let mut j: usize = 0;
    while j < acc.len()
        invariant
            j <= acc@.len(),
            string_views(out@) == views(acc@).take(j as int),
        decreases acc@.len() - j,
    {
        let s = string_of(acc[j].as_slice());
        let ghost o = out@;
        out.push(s);
        assert(string_views(out@) =~= string_views(o).push(acc@[j as int]@));
        assert(views(acc@).take(j as int + 1) =~= views(acc@).take(j as int).push(acc@[j as int]@));
        j += 1;
    }
    assert(views(acc@).take(acc@.len() as int) =~= views(acc@));
    out
}

/// The names of the capabilities in `caps`, sorted.
fn sorted_cap_names(caps: Caps) -> (r: Vec<String>)
    ensures
        sorted_like(string_views(r@), spec_names_of(caps)),
{
    let names = names_of(caps);
    let mut name_chars: Vec<Vec<char>> = Vec::new();
    let mut i: usize = 0;
    while i < names.len()
        invariant
            i <= names@.len(),
            views(name_chars@) == str_views(names@).take(i as int),
        decreases names@.len() - i,
    {
        let ghost o = name_chars@;
        name_chars.push(chars_of(names[i]));
        assert(views(name_chars@) =~= views(o).push(names@[i as int]@));
        assert(str_views(names@).take(i as int + 1) =~= str_views(names@).take(i as int).push(names@[i as int]@));
        i += 1;
    }
    assert(str_views(names@).take(names@.len() as int) =~= str_views(names@));
    assert(str_views(names@) =~= names@.map_values(|s: &str| s@));
    sorted_strings(name_chars)
}

/// Facts about a finished scene, for the size and decision panel.
///
/// Capability and module names are reported sorted: the compiler's own
/// orders (bit order, emission order) carry meaning for it but read as
/// arbitrary in a panel that lists them.
pub fn describe(
    scene: &SceneFacts,
    mods: &[Mod],
    js: String,
    instanced: bool,
    helpers: &[&'static str],
) -> (r: Report)
    requires
        uses_fit(scene),
        scene.bindings + replays(scene.uses@, scene.assets@, scene.uses@.len() as int) <= usize::MAX,
        scene.layers + asset_records(scene.assets@, scene.assets@.len() as int) <= usize::MAX,
    ensures
        r.js@ == js@,
        sorted_like(string_views(r.caps@), spec_names_of(scene.caps)),
        scene.is_static ==> r.modules@.len() == 0,
        !scene.is_static ==> sorted_like(string_views(r.modules@), spec_imported_modules(scene.caps)),
        r.runtime_slice == if scene.is_static {
            0
        } else {
            byte_len(minified_or(anchored(mods@, scene.caps, str_views(helpers@)))) as usize
        },
        r.is_static == scene.is_static,
        r.instanced == instanced,
        r.templated == (scene.templates > 0),
        r.elements == element_count(scene.markup@),
        r.bindings == scene.bindings + replays(scene.uses@, scene.assets@, scene.uses@.len() as int),
        r.records == scene.layers + asset_records(scene.assets@, scene.assets@.len() as int),
        r.generated == scene.generated,
        r.instance_clocks == exists|k: int|
            0 <= k < scene.uses@.len() && use_clocked(#[trigger] scene.uses@[k], scene.assets@),
{
    let caps = sorted_cap_names(scene.caps);

    let modules = if scene.is_static {
        Vec::new()
    } else {
        let ms = imported_modules(scene.caps);
        let mut mod_chars: Vec<Vec<char>> = Vec::new();
        let mut k: usize = 0;
        while k < ms.len()
            invariant
                k <= ms@.len(),
                views(mod_chars@) == string_views(ms@).take(k as int),
            decreases ms@.len() - k,
        {
            let ghost o = mod_chars@;
            mod_chars.push(chars_of(ms[k].as_str()));
            assert(views(mod_chars@) =~= views(o).push(ms@[k as int]@));
            assert(string_views(ms@).take(k as int + 1) =~= string_views(ms@).take(k as int).push(ms@[k as int]@));
            k += 1;
        }
        assert(string_views(ms@).take(ms@.len() as int) =~= string_views(ms@));
        sorted_strings(mod_chars)
    };

    let runtime_slice = if scene.is_static {
        0
    } else {
        runtime_size_with(mods, scene.caps, helpers)
    };

    let mut replayed: usize = 0;
    let mut clocks = false;
    let mut u: usize = 0;
    while u < scene.uses.len()
        invariant
            u <= scene.uses@.len(),
            uses_fit(scene),
            scene.bindings + replays(scene.uses@, scene.assets@, scene.uses@.len() as int) <= usize::MAX,
            replayed == replays(scene.uses@, scene.assets@, u as int),
            clocks == exists|k: int| 0 <= k < u && use_clocked(#[trigger] scene.uses@[k], scene.assets@),
        decreases scene.uses@.len() - u,
    {
        let us = scene.uses[u];
        let a = &scene.assets[us.asset as usize];
        proof {
            lemma_replays_grow(scene.uses@, scene.assets@, u as int + 1, scene.uses@.len() as int);
        }
        replayed = replayed + a.bindings;
        let mut on_clock = us.parent_slot != 0;
        let mut j: usize = 0;
        while j < a.slots.len()
            invariant
                j <= a.slots@.len(),
                on_clock == (us.parent_slot != 0 || exists|q: int| 0 <= q < j && #[trigger] a.slots@[q] != 0),
            decreases a.slots@.len() - j,
        {
            if a.slots[j] != 0 {
                on_clock = true;
            }
            j += 1;
        }
        proof {
            assert(on_clock == use_clocked(scene.uses@[u as int], scene.assets@));
            if on_clock {
                assert(use_clocked(scene.uses@[u as int], scene.assets@));
            }
            if clocks {
                let k = choose|k: int| 0 <= k < u && use_clocked(#[trigger] scene.uses@[k], scene.assets@);
                assert(0 <= k < u + 1 && use_clocked(scene.uses@[k], scene.assets@));
            }
        }
        clocks = clocks || on_clock;
        u += 1;
    }

    let mut records: usize = scene.layers;
    let mut a: usize = 0;
    while a < scene.assets.len()
        invariant
            a <= scene.assets@.len(),
            scene.layers + asset_records(scene.assets@, scene.assets@.len() as int) <= usize::MAX,
            records == scene.layers + asset_records(scene.assets@, a as int),
        decreases scene.assets@.len() - a,
    {
        proof {
            lemma_records_grow(scene.assets@, a as int + 1, scene.assets@.len() as int);
        }
        records = records + scene.assets[a].records;
        a += 1;
    }

    let elements = element_count_of(scene.markup.as_str());

    Report {
        js,
        caps,
        modules,
        runtime_slice,
        is_static: scene.is_static,
        instanced,
        templated: scene.templates > 0,
        elements,
        bindings: scene.bindings + replayed,
        records,
        generated: scene.generated,
        instance_clocks: clocks,
    }
}

proof fn lemma_replays_grow(uses: Seq<InstanceUse>, assets: Seq<AssetFacts>, n: int, m: int)
    requires
        n <= m,
    ensures
        replays(uses, assets, n) <= replays(uses, assets, m),
    decreases m - n,
{
    if n < m {
        lemma_replays_grow(uses, assets, n, m - 1);
    }
}

proof fn lemma_records_grow(assets: Seq<AssetFacts>, n: int, m: int)
    requires
        n <= m,
    ensures
        asset_records(assets, n) <= asset_records(assets, m),
    decreases m - n,
{
    if n < m {
        lemma_records_grow(assets, n, m - 1);
    }
}

/// Elements in a markup string: one per `<`, less one per closing `</`.
fn element_count_of(markup: &str) -> (r: usize)
    ensures
        r == element_count(markup@),
{
    let c = chars_of(markup);
    let mut open: usize = 0;
    let mut close: usize = 0;
    let mut i: usize = 0;
    while i < c.len()
        invariant
            i <= c@.len(),
            c@ == markup@,
            open == opens(c@, i as int),
            close == closes(c@, i as int),
            close <= open <= i,
        decreases c@.len() - i,
    {
        if c[i] == '<' {
            open = open + 1;
            if i + 1 < c.len() && c[i + 1] == '/' {
                close = close + 1;
            }
        }
        i += 1;
    }
    open - close
}

/// The report of a fully inlined build for a target that implements only
/// `supported`, or its refusal when the scene reaches anything else.
///
/// Such a target plans without instancing or templates and has no expression
/// engine, so those fields are fixed; the capability names are sorted as for
/// the web target.
pub open spec fn target_refusal(target: Seq<char>, missing: Caps) -> Seq<char> {
    "the "@ + target + " target does not support: "@ + spec_caps_list(missing)
}

pub fn aot_report(
    target: &str,
    supported: Caps,
    caps: Caps,
    is_static: bool,
    bindings: usize,
    js: String,
    elements: usize,
) -> (r: Result<Report, String>)
    ensures
        (caps & !supported) != 0 <==> r is Err,
        r matches Err(e) ==> e@ == target_refusal(target@, caps & !supported),
        r matches Ok(rep) ==> {
            &&& rep.js@ == js@
            &&& sorted_like(string_views(rep.caps@), spec_names_of(caps))
            &&& rep.modules@.len() == 0
            &&& rep.runtime_slice == 0
            &&& rep.is_static == is_static
            &&& !rep.instanced
            &&& !rep.templated
            &&& rep.elements == elements
            &&& rep.bindings == bindings
            &&& rep.records == 0
            &&& !rep.generated
            &&& !rep.instance_clocks
        },
{
    let missing = caps & !supported;
    if missing != 0 {
        let mut e = String::new();
        push_str(&mut e, "the ");
        push_str(&mut e, target);
        push_str(&mut e, " target does not support: ");
        let list = caps_list(missing);
        push_str(&mut e, list.as_str());
        return Err(e);
    }
    let sorted = sorted_cap_names(caps);
    Ok(Report {
        js,
        caps: sorted,
        modules: Vec::new(),
        runtime_slice: 0,
        is_static,
        instanced: false,
        templated: false,
        elements,
        bindings,
        records: 0,
        generated: false,
        instance_clocks: false,
    })
}

} // verus!
