//! The metric registry: the mapping from metric name to the stable index
//! that defines the cost-vector layout. Built once from the caller's
//! selection; a derived metric's prerequisites are auto-included, marked
//! internal-only unless explicitly selected, and always stand at lower
//! indices than the metric that needs them.

use vstd::prelude::*;

verus! {

/// A configuration fault reported before processing begins.
#[derive(Clone, Copy, PartialEq, Eq, Structural, Debug)]
pub enum ConfigError {
    /// A requested metric name the framework does not know.
    UnsupportedMetricName,
}

/// The registry: metric names in index order, each marked internal-only or
/// serialized.
pub struct Registry {
    pub entries: Vec<(String, bool)>,
}

impl View for Registry {
    type V = Seq<(Seq<char>, bool)>;

    open spec fn view(&self) -> Seq<(Seq<char>, bool)> {
        self.entries@.map_values(|p: (String, bool)| (p.0@, p.1))
    }
}

/// The index of the first entry named `name`, if any.
pub open spec fn spec_index_of(reg: Seq<(Seq<char>, bool)>, name: Seq<char>) -> Option<int>
    decreases reg.len(),
{
    if reg.len() == 0 {
        None
    } else if reg[0].0 == name {
        Some(0)
    } else {
        match spec_index_of(reg.drop_first(), name) {
            Option::Some(i) => Some(i + 1),
            Option::None => None,
        }
    }
}

/// Whether the registry has an entry named `name`.
pub open spec fn spec_has_name(reg: Seq<(Seq<char>, bool)>, name: Seq<char>) -> bool {
    spec_index_of(reg, name) is Some
}

/// The first index is a real occurrence, and no occurrence comes earlier.
pub proof fn lemma_index_of_first(reg: Seq<(Seq<char>, bool)>, name: Seq<char>)
    ensures
        spec_index_of(reg, name) matches Some(i) ==> 0 <= i < reg.len() && reg[i].0 == name
            && forall|j: int| 0 <= j < i ==> (#[trigger] reg[j]).0 != name,
        spec_index_of(reg, name) is None ==> forall|j: int|
            0 <= j < reg.len() ==> (#[trigger] reg[j]).0 != name,
    decreases reg.len(),
{
    if reg.len() > 0 {
        lemma_index_of_first(reg.drop_first(), name);
        if reg[0].0 != name {
            match spec_index_of(reg.drop_first(), name) {
                Option::Some(ip) => {
                    assert(reg[ip + 1] == reg.drop_first()[ip]);
                    assert forall|j: int| 0 <= j < ip + 1 implies (#[trigger] reg[j]).0 != name by {
                        if j > 0 {
                            assert(reg.drop_first()[j - 1] == reg[j]);
                        }
                    }
                },
                Option::None => {
                    assert forall|j: int| 0 <= j < reg.len() implies (#[trigger] reg[j]).0
                        != name by {
                        if j > 0 {
                            assert(reg.drop_first()[j - 1] == reg[j]);
                        }
                    }
                },
            }
        }
    }
}

/// How many metrics the serialized cost vector holds: the entries not
/// marked internal-only.
pub open spec fn spec_metric_count(reg: Seq<(Seq<char>, bool)>) -> int
    decreases reg.len(),
{
    if reg.len() == 0 {
        0int
    } else {
        spec_metric_count(reg.drop_first()) + if reg[0].1 {
            0int
        } else {
            1int
        }
    }
}

/// The metric name a selectable configuration name stands for.
pub open spec fn spec_resolve_metric(s: Seq<char>) -> Option<Seq<char>> {
    if s == "distance"@ {
        Some("distance"@)
    } else if s == "speed:car"@ {
        Some("CarSpeed"@)
    } else if s == "time:car"@ {
        Some("TravelTime"@)
    } else {
        None
    }
}

/// Appends a prerequisite as internal-only unless it is already registered.
pub open spec fn spec_ensure_dep(reg: Seq<(Seq<char>, bool)>, name: Seq<char>) -> Seq<
    (Seq<char>, bool),
> {
    if spec_has_name(reg, name) {
        reg
    } else {
        reg.push((name, true))
    }
}

/// Registers `name` with the given internal-only flag, overriding the flag
/// of an existing entry in place.
pub open spec fn spec_set_internal(
    reg: Seq<(Seq<char>, bool)>,
    name: Seq<char>,
    internal: bool,
) -> Seq<(Seq<char>, bool)> {
    match spec_index_of(reg, name) {
        Option::Some(i) => reg.update(i, (name, internal)),
        Option::None => reg.push((name, internal)),
    }
}

/// Whether `name` occurs in the list of requested names.
pub open spec fn spec_name_in(list: Seq<Seq<char>>, name: Seq<char>) -> bool
    decreases list.len(),
{
    if list.len() == 0 {
        false
    } else {
        list[0] == name || spec_name_in(list.drop_first(), name)
    }
}

/// One selection step: the prerequisites of a derived metric first, as
/// internal-only when new, then the metric itself, internal-only exactly
/// when the caller listed it so.
pub open spec fn spec_add_selected(
    reg: Seq<(Seq<char>, bool)>,
    cli: Seq<char>,
    metric: Seq<char>,
    internal: Seq<Seq<char>>,
) -> Seq<(Seq<char>, bool)> {
    let with_deps = if cli == "time:car"@ {
        spec_ensure_dep(spec_ensure_dep(reg, "distance"@), "CarSpeed"@)
    } else {
        reg
    };
    spec_set_internal(with_deps, metric, spec_name_in(internal, cli))
}

/// Folds the selection over the registry being built; an unrecognized name
/// fails the whole configuration.
pub open spec fn spec_build_rec(
    reg: Seq<(Seq<char>, bool)>,
    selected: Seq<Seq<char>>,
    internal: Seq<Seq<char>>,
) -> Result<Seq<(Seq<char>, bool)>, ConfigError>
    decreases selected.len(),
{
    if selected.len() == 0 {
        Ok(reg)
    } else {
        match spec_resolve_metric(selected[0]) {
            Option::Some(m) => spec_build_rec(
                spec_add_selected(reg, selected[0], m, internal),
                selected.drop_first(),
                internal,
            ),
            Option::None => Err(ConfigError::UnsupportedMetricName),
        }
    }
}

/// The registry a selection builds.
pub open spec fn spec_build_registry(selected: Seq<Seq<char>>, internal: Seq<Seq<char>>) -> Result<
    Seq<(Seq<char>, bool)>,
    ConfigError,
> {
    spec_build_rec(Seq::empty(), selected, internal)
}

impl Registry {
    /// The index of the metric named `name`, if registered.
    pub fn index_of(&self, name: &str) -> (r: Option<usize>)
        ensures
            match r {
                Some(i) => spec_index_of(self@, name@) == Some(i as int),
                None => spec_index_of(self@, name@) is None,
            },
    {
        let n = self.entries.len();
        for i in 0..n
            invariant
                n == self.entries@.len(),
                forall|j: int| 0 <= j < i ==> (#[trigger] self@[j]).0 != name@,
        {
            if crate::tags::str_eq(self.entries[i].0.as_str(), name) {
                proof {
                    lemma_index_of_prefix(self@, name@, i as int);
                }
                return Some(i);
            }
        }
        proof {
            lemma_index_of_absent(self@, name@);
        }
        None
    }

    /// How many metrics the serialized cost vector holds.
    pub fn metric_count(&self) -> (r: usize)
        ensures
            r == spec_metric_count(self@),
    {
        let n = self.entries.len();
        let mut count: usize = 0;
        proof {
            lemma_metric_count_bounds(self@, 0);
            assert(self@.skip(0) =~= self@);
        }
        for i in 0..n
            invariant
                n == self.entries@.len(),
                count == spec_metric_count(self@) - spec_metric_count(self@.skip(i as int)),
                count <= i,
        {
            proof {
                lemma_metric_count_bounds(self@, i as int);
                lemma_metric_count_bounds(self@, i + 1);
                assert(self@.skip(i as int).drop_first() =~= self@.skip(i + 1));
                assert(self@.skip(i as int)[0] == self@[i as int]);
            }
            if !self.entries[i].1 {
                count += 1;
            }
        }
        proof {
            assert(self@.skip(n as int) =~= Seq::<(Seq<char>, bool)>::empty());
        }
        count
    }
}

/// A name is registered exactly when some entry carries it.
pub proof fn lemma_has_name_iff(reg: Seq<(Seq<char>, bool)>, name: Seq<char>)
    ensures
        spec_has_name(reg, name) <==> (exists|i: int|
            0 <= i < reg.len() && (#[trigger] reg[i]).0 == name),
{
    lemma_index_of_first(reg, name);
    match spec_index_of(reg, name) {
        Option::Some(i) => {
            assert(reg[i].0 == name);
        },
        Option::None => {},
    }
}

/// Well-formedness of a registry: names are unique, and every derived
/// metric's prerequisites stand at lower indices, so one left-to-right pass
/// can evaluate the cost vector.
pub open spec fn spec_registry_wf(reg: Seq<(Seq<char>, bool)>) -> bool {
    &&& forall|i: int, j: int|
        0 <= i < j < reg.len() ==> (#[trigger] reg[i]).0 != (#[trigger] reg[j]).0
    &&& forall|i: int|
        0 <= i < reg.len() && (#[trigger] reg[i]).0 == "TravelTime"@ ==> (exists|j: int|
            0 <= j < i && (#[trigger] reg[j]).0 == "distance"@) && (exists|k: int|
            0 <= k < i && (#[trigger] reg[k]).0 == "CarSpeed"@)
}

proof fn lemma_ensure_dep_props(reg: Seq<(Seq<char>, bool)>, name: Seq<char>)
    requires
        spec_registry_wf(reg),
        name != "TravelTime"@,
    ensures
        spec_registry_wf(spec_ensure_dep(reg, name)),
        spec_has_name(spec_ensure_dep(reg, name), name),
        forall|m: Seq<char>|
            #[trigger] spec_has_name(reg, m) ==> spec_has_name(spec_ensure_dep(reg, name), m),
{
    let out = spec_ensure_dep(reg, name);
    lemma_has_name_iff(reg, name);
    lemma_has_name_iff(out, name);
    if !spec_has_name(reg, name) {
        assert(out == reg.push((name, true)));
        assert(out[reg.len() as int].0 == name);
        assert forall|i: int|
            0 <= i < out.len() && (#[trigger] out[i]).0 == "TravelTime"@ implies (exists|j: int|
            0 <= j < i && (#[trigger] out[j]).0 == "distance"@) && (exists|k: int|
            0 <= k < i && (#[trigger] out[k]).0 == "CarSpeed"@) by {
            assert(i < reg.len() && reg[i].0 == "TravelTime"@);
            let j = choose|j: int| 0 <= j < i && (#[trigger] reg[j]).0 == "distance"@;
            assert(out[j].0 == "distance"@);
            let k = choose|k: int| 0 <= k < i && (#[trigger] reg[k]).0 == "CarSpeed"@;
            assert(out[k].0 == "CarSpeed"@);
        }
    }
    assert forall|m: Seq<char>| #[trigger] spec_has_name(reg, m) implies spec_has_name(
        out,
        m,
    ) by {
        lemma_has_name_iff(reg, m);
        lemma_has_name_iff(out, m);
        let i = choose|i: int| 0 <= i < reg.len() && (#[trigger] reg[i]).0 == m;
        assert(out[i].0 == m);
    }
}

proof fn lemma_set_internal_props(reg: Seq<(Seq<char>, bool)>, name: Seq<char>, internal: bool)
    requires
        spec_registry_wf(reg),
        name == "TravelTime"@ ==> spec_has_name(reg, "distance"@) && spec_has_name(
            reg,
            "CarSpeed"@,
        ),
    ensures
        spec_registry_wf(spec_set_internal(reg, name, internal)),
        spec_has_name(spec_set_internal(reg, name, internal), name),
        forall|m: Seq<char>|
            #[trigger] spec_has_name(reg, m) ==> spec_has_name(
                spec_set_internal(reg, name, internal),
                m,
            ),
{
    let out = spec_set_internal(reg, name, internal);
    lemma_index_of_first(reg, name);
    lemma_has_name_iff(out, name);
    match spec_index_of(reg, name) {
        Option::Some(at) => {
            assert(out == reg.update(at, (name, internal)));
            assert(reg[at].0 == name);
            assert forall|i: int| 0 <= i < out.len() implies (#[trigger] out[i]).0
                == reg[i].0 by {}
            assert(out[at].0 == name);
            assert forall|i: int|
                0 <= i < out.len() && (#[trigger] out[i]).0 == "TravelTime"@ implies (exists|
                j: int,
            |
                0 <= j < i && (#[trigger] out[j]).0 == "distance"@) && (exists|k: int|
                0 <= k < i && (#[trigger] out[k]).0 == "CarSpeed"@) by {
                assert(reg[i].0 == "TravelTime"@);
                let j = choose|j: int| 0 <= j < i && (#[trigger] reg[j]).0 == "distance"@;
                assert(out[j].0 == "distance"@);
                let k = choose|k: int| 0 <= k < i && (#[trigger] reg[k]).0 == "CarSpeed"@;
                assert(out[k].0 == "CarSpeed"@);
            }
            assert forall|m: Seq<char>| #[trigger] spec_has_name(reg, m) implies spec_has_name(
                out,
                m,
            ) by {
                lemma_has_name_iff(reg, m);
                lemma_has_name_iff(out, m);
                let i = choose|i: int| 0 <= i < reg.len() && (#[trigger] reg[i]).0 == m;
                assert(out[i].0 == m);
            }
        },
        Option::None => {
            assert(out == reg.push((name, internal)));
            assert(out[reg.len() as int].0 == name);
            if name == "TravelTime"@ {
                lemma_has_name_iff(reg, "distance"@);
                lemma_has_name_iff(reg, "CarSpeed"@);
            }
            assert forall|i: int|
                0 <= i < out.len() && (#[trigger] out[i]).0 == "TravelTime"@ implies (exists|
                j: int,
            |
                0 <= j < i && (#[trigger] out[j]).0 == "distance"@) && (exists|k: int|
                0 <= k < i && (#[trigger] out[k]).0 == "CarSpeed"@) by {
                if i < reg.len() {
                    assert(reg[i].0 == "TravelTime"@);
                    let j = choose|j: int| 0 <= j < i && (#[trigger] reg[j]).0 == "distance"@;
                    assert(out[j].0 == "distance"@);
                    let k = choose|k: int| 0 <= k < i && (#[trigger] reg[k]).0 == "CarSpeed"@;
                    assert(out[k].0 == "CarSpeed"@);
                } else {
                    let j = choose|j: int|
                        0 <= j < reg.len() && (#[trigger] reg[j]).0 == "distance"@;
                    assert(out[j].0 == "distance"@);
                    let k = choose|k: int|
                        0 <= k < reg.len() && (#[trigger] reg[k]).0 == "CarSpeed"@;
                    assert(out[k].0 == "CarSpeed"@);
                }
            }
            assert forall|m: Seq<char>| #[trigger] spec_has_name(reg, m) implies spec_has_name(
                out,
                m,
            ) by {
                lemma_has_name_iff(reg, m);
                lemma_has_name_iff(out, m);
                let i = choose|i: int| 0 <= i < reg.len() && (#[trigger] reg[i]).0 == m;
                assert(out[i].0 == m);
            }
        },
    }
}

proof fn lemma_build_rec_props(
    reg: Seq<(Seq<char>, bool)>,
    selected: Seq<Seq<char>>,
    internal: Seq<Seq<char>>,
)
    requires
        spec_registry_wf(reg),
    ensures
        spec_build_rec(reg, selected, internal) matches Ok(out) ==> {
            &&& spec_registry_wf(out)
            &&& forall|m: Seq<char>| #[trigger] spec_has_name(reg, m) ==> spec_has_name(out, m)
            &&& spec_name_in(selected, "time:car"@) ==> spec_has_name(out, "distance"@)
                && spec_has_name(out, "CarSpeed"@) && spec_has_name(out, "TravelTime"@)
            &&& spec_name_in(selected, "distance"@) ==> spec_has_name(out, "distance"@)
            &&& spec_name_in(selected, "speed:car"@) ==> spec_has_name(out, "CarSpeed"@)
        },
    decreases selected.len(),
{
    // Revealing the name literals (and pinning their lengths and first
    // characters) lets the prover tell the distinct names apart.
    reveal_strlit("distance");
    reveal_strlit("CarSpeed");
    reveal_strlit("TravelTime");
    reveal_strlit("speed:car");
    reveal_strlit("time:car");
    assert("distance"@.len() == 8);
    assert("CarSpeed"@.len() == 8);
    assert("TravelTime"@.len() == 10);
    assert("speed:car"@.len() == 9);
    assert("time:car"@.len() == 8);
    assert("distance"@[0] == 'd' && "time:car"@[0] == 't' && "CarSpeed"@[0] == 'C');
    if selected.len() > 0 {
        match spec_resolve_metric(selected[0]) {
            Option::Some(m) => {
                let cli = selected[0];
                let mid = if cli == "time:car"@ {
                    spec_ensure_dep(spec_ensure_dep(reg, "distance"@), "CarSpeed"@)
                } else {
                    reg
                };
                if cli == "time:car"@ {
                    lemma_ensure_dep_props(reg, "distance"@);
                    lemma_ensure_dep_props(spec_ensure_dep(reg, "distance"@), "CarSpeed"@);
                }
                let stepped = spec_add_selected(reg, cli, m, internal);
                lemma_set_internal_props(mid, m, spec_name_in(internal, cli));
                lemma_build_rec_props(stepped, selected.drop_first(), internal);
                match spec_build_rec(stepped, selected.drop_first(), internal) {
                    Result::Ok(out) => {
                        assert(spec_build_rec(reg, selected, internal) == Ok::<
                            Seq<(Seq<char>, bool)>,
                            ConfigError,
                        >(out));
                        assert forall|mm: Seq<char>| #[trigger] spec_has_name(reg, mm)
                            implies spec_has_name(out, mm) by {
                            assert(spec_has_name(mid, mm));
                            assert(spec_has_name(stepped, mm));
                        }
                        if cli == "time:car"@ {
                            assert(spec_has_name(mid, "distance"@));
                            assert(spec_has_name(mid, "CarSpeed"@));
                            assert(spec_has_name(stepped, "distance"@));
                            assert(spec_has_name(stepped, "CarSpeed"@));
                            assert(spec_has_name(stepped, "TravelTime"@));
                            assert(spec_has_name(out, "TravelTime"@));
                        }
                        if cli == "distance"@ {
                            assert(m == "distance"@);
                            assert(spec_has_name(stepped, "distance"@));
                        }
                        if cli == "speed:car"@ {
                            assert(m == "CarSpeed"@);
                            assert(spec_has_name(stepped, "CarSpeed"@));
                        }
                    },
                    Result::Err(_) => {},
                }
            },
            Option::None => {},
        }
    }
}

/// DEPENDENCY CLOSURE OF THE CONFIGURATION. A successfully built registry
/// is well formed: names are unique (nothing is duplicated in the output),
/// and a derived metric's prerequisites always stand at lower indices.
/// Requesting the derived travel time brings the distance and car speed
/// metrics in, whether or not they were selected themselves.
pub proof fn lemma_build_registry_props(selected: Seq<Seq<char>>, internal: Seq<Seq<char>>)
    ensures
        spec_build_registry(selected, internal) matches Ok(reg) ==> {
            &&& spec_registry_wf(reg)
            &&& spec_name_in(selected, "time:car"@) ==> spec_has_name(reg, "distance"@)
                && spec_has_name(reg, "CarSpeed"@) && spec_has_name(reg, "TravelTime"@)
            &&& spec_name_in(selected, "distance"@) ==> spec_has_name(reg, "distance"@)
            &&& spec_name_in(selected, "speed:car"@) ==> spec_has_name(reg, "CarSpeed"@)
        },
{
    lemma_build_rec_props(Seq::empty(), selected, internal);
}

/// Checks whether `name` occurs in the requested list.
fn name_in(list: &Vec<String>, name: &str) -> (r: bool)
    ensures
        r == spec_name_in(list.deep_view(), name@),
{
    let n = list.len();
    proof {
        assert(list.deep_view().skip(0) =~= list.deep_view());
    }
    for i in 0..n
        invariant
            n == list@.len(),
            n == list.deep_view().len(),
            spec_name_in(list.deep_view(), name@) == spec_name_in(
                list.deep_view().skip(i as int),
                name@,
            ),
    {
        proof {
            assert(list.deep_view().skip(i as int)[0] == list.deep_view()[i as int]);
            assert(list.deep_view()[i as int] == list@[i as int]@);
            assert(list.deep_view().skip(i as int).drop_first() =~= list.deep_view().skip(i + 1));
        }
        if crate::tags::str_eq(list[i].as_str(), name) {
            return true;
        }
    }
    proof {
        assert(list.deep_view().skip(n as int) =~= Seq::<Seq<char>>::empty());
    }
    false
}

/// Appends a prerequisite as internal-only unless already registered.
fn ensure_dep(reg: &mut Registry, name: &str)
    ensures
        final(reg)@ == spec_ensure_dep(old(reg)@, name@),
{
    match reg.index_of(name) {
        Some(_) => {},
        None => {
            reg.entries.push((name.to_owned(), true));
            proof {
                assert(reg@ =~= old(reg)@.push((name@, true)));
            }
        },
    }
}

/// Registers `name` with the given internal-only flag, overriding the flag
/// of an existing entry.
fn set_internal(reg: &mut Registry, name: &str, internal: bool)
    ensures
        final(reg)@ == spec_set_internal(old(reg)@, name@, internal),
{
    match reg.index_of(name) {
        Some(i) => {
            proof {
                lemma_index_of_first(old(reg)@, name@);
            }
            reg.entries.set(i, (name.to_owned(), internal));
            proof {
                assert(reg@ =~= old(reg)@.update(i as int, (name@, internal)));
            }
        },
        None => {
            reg.entries.push((name.to_owned(), internal));
            proof {
                assert(reg@ =~= old(reg)@.push((name@, internal)));
            }
        },
    }
}

/// Builds the registry from the caller's selection: metric names in request
/// order, a derived metric's prerequisites auto-included before it as
/// internal-only unless selected themselves, and every metric marked
/// internal-only exactly when the caller listed it so. An unrecognized
/// name is a configuration error.
pub fn build_registry(selected: &Vec<String>, internal: &Vec<String>) -> (r: Result<
    Registry,
    ConfigError,
>)
    ensures
        match r {
            Ok(reg) => spec_build_registry(selected.deep_view(), internal.deep_view()) == Ok::<
                _,
                ConfigError,
            >(reg@),
            Err(e) => spec_build_registry(selected.deep_view(), internal.deep_view()) == Err::<
                Seq<(Seq<char>, bool)>,
                _,
            >(e),
        },
{
    let mut reg = Registry { entries: Vec::new() };
    proof {
        assert(reg@ =~= Seq::<(Seq<char>, bool)>::empty());
        assert(selected.deep_view().skip(0) =~= selected.deep_view());
    }
    let n = selected.len();
    for i in 0..n
        invariant
            n == selected@.len(),
            n == selected.deep_view().len(),
            spec_build_registry(selected.deep_view(), internal.deep_view()) == spec_build_rec(
                reg@,
                selected.deep_view().skip(i as int),
                internal.deep_view(),
            ),
    {
        proof {
            assert(selected.deep_view().skip(i as int)[0] == selected.deep_view()[i as int]);
            assert(selected.deep_view()[i as int] == selected@[i as int]@);
            assert(selected.deep_view().skip(i as int).drop_first() =~= selected.deep_view().skip(
                i + 1,
            ));
        }
        let s = selected[i].as_str();
        let metric: &'static str = if crate::tags::str_eq(s, "distance") {
            "distance"
        } else if crate::tags::str_eq(s, "speed:car") {
            "CarSpeed"
        } else if crate::tags::str_eq(s, "time:car") {
            "TravelTime"
        } else {
            return Err(ConfigError::UnsupportedMetricName);
        };
        if crate::tags::str_eq(s, "time:car") {
            ensure_dep(&mut reg, "distance");
            ensure_dep(&mut reg, "CarSpeed");
        }
        let flag = name_in(internal, s);
        set_internal(&mut reg, metric, flag);
    }
    proof {
        assert(selected.deep_view().skip(n as int) =~= Seq::<Seq<char>>::empty());
    }
    Ok(reg)
}

proof fn lemma_index_of_prefix(reg: Seq<(Seq<char>, bool)>, name: Seq<char>, i: int)
    requires
        0 <= i < reg.len(),
        reg[i].0 == name,
        forall|j: int| 0 <= j < i ==> (#[trigger] reg[j]).0 != name,
    ensures
        spec_index_of(reg, name) == Some(i),
    decreases i,
{
    if i > 0 {
        assert forall|j: int| 0 <= j < i - 1 implies (#[trigger] reg.drop_first()[j]).0
            != name by {
            assert(reg.drop_first()[j] == reg[j + 1]);
        }
        lemma_index_of_prefix(reg.drop_first(), name, i - 1);
    }
}

proof fn lemma_index_of_absent(reg: Seq<(Seq<char>, bool)>, name: Seq<char>)
    requires
        forall|j: int| 0 <= j < reg.len() ==> (#[trigger] reg[j]).0 != name,
    ensures
        spec_index_of(reg, name) is None,
    decreases reg.len(),
{
    if reg.len() > 0 {
        assert forall|j: int| 0 <= j < reg.drop_first().len() implies (#[trigger] reg.drop_first()[
            j
        ]).0 != name by {
            assert(reg.drop_first()[j] == reg[j + 1]);
        }
        lemma_index_of_absent(reg.drop_first(), name);
    }
}

proof fn lemma_metric_count_bounds(reg: Seq<(Seq<char>, bool)>, i: int)
    requires
        0 <= i <= reg.len(),
    ensures
        0 <= spec_metric_count(reg.skip(i)) <= reg.len() - i,
        spec_metric_count(reg.skip(reg.len() as int)) == 0,
    decreases reg.len() - i,
{
    if i < reg.len() {
        assert(reg.skip(i).drop_first() =~= reg.skip(i + 1));
        lemma_metric_count_bounds(reg, i + 1);
    } else {
        assert(reg.skip(i) =~= Seq::<(Seq<char>, bool)>::empty());
    }
}

} // verus!
