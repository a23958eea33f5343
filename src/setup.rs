//! Building the diallers of a run, their signals and their queues from the
//! configuration.
use vstd::prelude::*;
use crate::dialler::{signal_entries_view, Dialler, DiallerModel, SignalMap, SignalModel};
use crate::message::opt_view;
use crate::scenarios::{find_dialler, find_scenario, DiallerConfig, ScenarioConfig, Scenarios, SignalConfig};
use crate::text::clone_opt;
use crate::utils::{account_name_spec, get_account_name, keys_view, parse_u32, parse_u32_spec, KeysMap};

verus! {

/// Every scenario id leaves room for the id plus one that keys its signals.
pub open spec fn ids_fit(ss: Seq<ScenarioConfig>) -> bool {
    forall|i: int| 0 <= i < ss.len() ==> #[trigger] ss[i].id < 0xFFFF
}

/// The entries `(id + 1, step, signal)` of the first `n` scenarios.
pub open spec fn scenario_signal_entries(ss: Seq<ScenarioConfig>, n: nat) -> Seq<(u16, u16, SignalModel)>
    decreases n,
{
    if n == 0 {
        seq![]
    } else {
        let s = ss[n - 1];
        scenario_signal_entries(ss, (n - 1) as nat) + Seq::new(
            s.sequence@.len(),
            |i: int| ((s.id + 1) as u16, i as u16, s.sequence@[i]@),
        )
    }
}

/// Builds the signal map: the default signal under `(0, 0)`, then each
/// scenario's signals under `(id + 1, step)`.
pub fn build_signals_map(token: String, message: String, repeat: u16, scenarios: Option<&Scenarios>) -> (r:
    SignalMap)
    requires
        scenarios is Some ==> ids_fit(scenarios->0.scenarios@),
    ensures
        signal_entries_view(r.entries@) == seq![
            (0u16, 0u16, SignalModel { token: token@, message: Some(message@), delay: 0, repeat }),
        ] + match scenarios {
            Some(s) => scenario_signal_entries(s.scenarios@, s.scenarios@.len()),
            None => seq![],
        },
{
    let mut result = SignalMap::new();
    let ghost m = message@;
    result.insert(0, 0, SignalConfig::new(token, Some(message), repeat));
    let ghost head = signal_entries_view(result.entries@);
    proof {
        assert(signal_entries_view(result.entries@) =~= head + Seq::<(u16, u16, SignalModel)>::empty());
    }
    if let Some(s) = scenarios {
        let ghost ss = s.scenarios@;
        let mut i: usize = 0;
        while i < s.scenarios.len()
            invariant
                i <= s.scenarios.len(),
                ss == s.scenarios@,
                ids_fit(ss),
                signal_entries_view(result.entries@) == head + scenario_signal_entries(ss, i as nat),
            decreases s.scenarios.len() - i,
        {
            let sc = &s.scenarios[i];
            assert(sc.id < 0xFFFF);
            let id = sc.id + 1;
            let ghost base = signal_entries_view(result.entries@);
            let mut j: usize = 0;
            while j < sc.sequence.len()
                invariant
                    j <= sc.sequence.len(),
                    id == sc.id + 1,
                    signal_entries_view(result.entries@) == base + Seq::new(
                        j as nat,
                        |k: int| (id, k as u16, sc.sequence@[k]@),
                    ),
                decreases sc.sequence.len() - j,
            {
                let sig = sc.sequence[j].duplicate();
                result.insert(id, j as u16, sig);
                proof {
                    assert(signal_entries_view(result.entries@) =~= base + Seq::new(
                        (j + 1) as nat,
                        |k: int| (id, k as u16, sc.sequence@[k]@),
                    ));
                }
                j += 1;
            }
            proof {
                assert(signal_entries_view(result.entries@) =~= head + scenario_signal_entries(
                    ss,
                    (i + 1) as nat,
                ));
            }
            i += 1;
        }
    }
    result
}

/// The `i`-th dialler made from `config`, with key index `index`.
pub open spec fn dialler_model(
    config: DiallerConfig,
    keys: Map<u16, Seq<char>>,
    index: u16,
    fixed: bool,
    i: int,
) -> DiallerModel {
    DiallerModel {
        account: account_name_spec(i as u16, parse_u32_spec(config.name@), config.name@, fixed),
        sequence: if config.sequence == 0 {
            0
        } else {
            (config.sequence - 1) as u16
        },
        receiver: opt_view(config.receiver),
        line_prefix: opt_view(config.prefix),
        key: if keys.contains_key(index) {
            Some(keys[index])
        } else {
            None
        },
        udp: config.udp,
        queue: seq![],
    }
}

/// Number of diallers a configuration makes: `count`, and at least one.
pub open spec fn dialler_count(config: DiallerConfig) -> nat {
    if config.count == 0 {
        1
    } else {
        config.count as nat
    }
}

pub open spec fn diallers_view(v: Seq<Dialler>) -> Seq<DiallerModel> {
    v.map_values(|d: Dialler| d@)
}

pub open spec fn built_models(config: DiallerConfig, keys: Map<u16, Seq<char>>, index: u16, fixed: bool) -> Seq<
    DiallerModel,
> {
    Seq::new(dialler_count(config), |i: int| dialler_model(config, keys, index, fixed, i))
}

/// Builds the diallers of one configuration; their accounts count up from its
/// name when it is a number and `fixed` is false.
pub fn build_diallers(config: &DiallerConfig, keys: &KeysMap, index: u16, fixed: bool) -> (r: Vec<
    Dialler,
>)
    ensures
        diallers_view(r@) == built_models(*config, keys_view(keys@), index, fixed),
{
    let n: u16 = if config.count == 0 {
        1
    } else {
        config.count
    };
    let account = parse_u32(config.name.as_str());
    let mut result: Vec<Dialler> = Vec::new();
    let mut i: u16 = 0;
    while i < n
        invariant
            i <= n,
            n as nat == dialler_count(*config),
            account == parse_u32_spec(config.name@),
            diallers_view(result@) == built_models(*config, keys_view(keys@), index, fixed).take(
                i as int,
            ),
        decreases n - i,
    {
        let name = get_account_name(i, account, config.name.as_str(), fixed);
        let start: u16 = if config.sequence == 0 {
            0
        } else {
            config.sequence - 1
        };
        let d = Dialler::new(name, config.udp).with_receiver_number(clone_opt(&config.receiver))
            .with_line_prefix(clone_opt(&config.prefix)).with_key(keys, index).with_start_sequence(
            start,
        );
        let ghost before = result@;
        result.push(d);
        proof {
            assert(d@ == dialler_model(*config, keys_view(keys@), index, fixed, i as int));
            assert(diallers_view(result@) =~= diallers_view(before).push(d@));
            assert(diallers_view(result@) =~= built_models(*config, keys_view(keys@), index, fixed).take(
                i + 1,
            ));
        }
        i += 1;
    }
    proof {
        assert(built_models(*config, keys_view(keys@), index, fixed).take(i as int) =~= built_models(
            *config,
            keys_view(keys@),
            index,
            fixed,
        ));
    }
    result
}

/// The diallers of the first `n` configurations, the `k`-th with key index `k + 1`.
pub open spec fn configured_models(
    ds: Seq<DiallerConfig>,
    keys: Map<u16, Seq<char>>,
    fixed: bool,
    n: nat,
) -> Seq<DiallerModel>
    decreases n,
{
    if n == 0 {
        seq![]
    } else {
        configured_models(ds, keys, fixed, (n - 1) as nat) + built_models(ds[n - 1], keys, n as u16, fixed)
    }
}

/// The diallers of a run: those of the configuration file, or, when it has
/// none, those of `default_config` with key index 0.
pub open spec fn created_models(
    scenarios: Option<Seq<DiallerConfig>>,
    default_config: DiallerConfig,
    keys: Map<u16, Seq<char>>,
    fixed: bool,
) -> Seq<DiallerModel> {
    let from_file = match scenarios {
        Some(ds) => configured_models(ds, keys, fixed, ds.len()),
        None => seq![],
    };
    if from_file.len() > 0 {
        from_file
    } else {
        built_models(default_config, keys, 0, fixed)
    }
}

/// Creates all diallers from the configuration file, or from `default_config`
/// when the file defines none.
pub fn create_diallers(
    scenarios: Option<&Scenarios>,
    default_config: &DiallerConfig,
    keys: &KeysMap,
    fixed: bool,
) -> (r: Vec<Dialler>)
    requires
        scenarios is Some ==> scenarios->0.diallers@.len() <= 0xFFFF,
    ensures
        diallers_view(r@) == created_models(
            match scenarios {
                Some(s) => Some(s.diallers@),
                None => None,
            },
            *default_config,
            keys_view(keys@),
            fixed,
        ),
{
    let mut result: Vec<Dialler> = Vec::new();
    if let Some(s) = scenarios {
        let ghost ds = s.diallers@;
        let mut i: usize = 0;
        while i < s.diallers.len()
            invariant
                i <= s.diallers.len() <= 0xFFFF,
                ds == s.diallers@,
                diallers_view(result@) == configured_models(ds, keys_view(keys@), fixed, i as nat),
            decreases s.diallers.len() - i,
        {
            let mut made = build_diallers(&s.diallers[i], keys, (i + 1) as u16, fixed);
            let ghost before = result@;
            let ghost added = made@;
            result.append(&mut made);
            proof {
                assert(result@ == before + added);
                assert(diallers_view(result@) =~= diallers_view(before) + diallers_view(added));
            }
            i += 1;
        }
    }
    if result.len() == 0 {
        result = build_diallers(default_config, keys, 0, fixed);
    }
    result
}

/// The `(id + 1, step)` entries of one scenario.
pub open spec fn scenario_steps(id: u16, n: nat) -> Seq<(u16, u16)> {
    Seq::new(n, |i: int| ((id + 1) as u16, i as u16))
}

/// The steps of the listed scenario ids that exist, in the order listed.
pub open spec fn steps_for_ids(ss: Seq<ScenarioConfig>, ids: Seq<u16>) -> Seq<(u16, u16)>
    decreases ids.len(),
{
    if ids.len() == 0 {
        seq![]
    } else {
        let prev = steps_for_ids(ss, ids.drop_last());
        let k = find_scenario(ss, ids.last());
        if k < ss.len() {
            prev + scenario_steps(ids.last(), ss[k].sequence@.len())
        } else {
            prev
        }
    }
}

/// The steps of every scenario, in order.
pub open spec fn steps_all(ss: Seq<ScenarioConfig>) -> Seq<(u16, u16)>
    decreases ss.len(),
{
    if ss.len() == 0 {
        seq![]
    } else {
        steps_all(ss.drop_last()) + scenario_steps(ss.last().id, ss.last().sequence@.len())
    }
}

/// What a dialler with `account` is given to send: the scenarios listed for
/// it, or all scenarios when it lists none.
pub open spec fn assigned_steps(s: Scenarios, account: Seq<char>) -> Seq<(u16, u16)> {
    let i = find_dialler(s.diallers@, account);
    if i < s.diallers@.len() && s.diallers@[i].scenarios is Some {
        steps_for_ids(s.scenarios@, s.diallers@[i].scenarios->0@)
    } else {
        steps_all(s.scenarios@)
    }
}

fn push_steps(dialler: &mut Dialler, id: u16, n: usize)
    requires
        id < 0xFFFF,
    ensures
        final(dialler)@ == (DiallerModel {
            queue: old(dialler)@.queue + scenario_steps(id, n as nat),
            ..old(dialler)@
        }),
{
    let mut j: usize = 0;
    while j < n
        invariant
            j <= n,
            id < 0xFFFF,
            dialler@ == (DiallerModel {
                queue: old(dialler)@.queue + scenario_steps(id, j as nat),
                ..old(dialler)@
            }),
        decreases n - j,
    {
        dialler.push_signal(id + 1, j as u16);
        proof {
            assert(old(dialler)@.queue + scenario_steps(id, (j + 1) as nat) =~= (old(dialler)@.queue
                + scenario_steps(id, j as nat)).push(((id + 1) as u16, j as u16)));
        }
        j += 1;
    }
}

fn push_listed(dialler: &mut Dialler, scenarios: &Scenarios, ids: &[u16])
    requires
        ids_fit(scenarios.scenarios@),
    ensures
        final(dialler)@ == (DiallerModel {
            queue: old(dialler)@.queue + steps_for_ids(scenarios.scenarios@, ids@),
            ..old(dialler)@
        }),
{
    let ghost ss = scenarios.scenarios@;
    let ghost q0 = dialler@.queue;
    let mut i: usize = 0;
    while i < ids.len()
        invariant
            i <= ids.len(),
            ids_fit(ss),
            ss == scenarios.scenarios@,
            dialler@ == (DiallerModel { queue: q0 + steps_for_ids(ss, ids@.take(i as int)), ..old(dialler)@ }),
        decreases ids.len() - i,
    {
        let id = ids[i];
        proof {
            assert(ids@.take(i + 1).drop_last() =~= ids@.take(i as int));
            assert(ids@.take(i + 1).last() == id);
        }
        if let Some(seq) = scenarios.get_sequence(id) {
            push_steps(dialler, id, seq.len());
            proof {
                assert(q0 + steps_for_ids(ss, ids@.take(i + 1)) =~= q0 + steps_for_ids(
                    ss,
                    ids@.take(i as int),
                ) + scenario_steps(id, seq@.len()));
            }
        }
        i += 1;
    }
    proof {
        assert(ids@.take(i as int) =~= ids@);
    }
}

fn push_all(dialler: &mut Dialler, scenarios: &Scenarios)
    requires
        ids_fit(scenarios.scenarios@),
    ensures
        final(dialler)@ == (DiallerModel {
            queue: old(dialler)@.queue + steps_all(scenarios.scenarios@),
            ..old(dialler)@
        }),
{
    let ghost ss = scenarios.scenarios@;
    let ghost q0 = dialler@.queue;
    let mut i: usize = 0;
    while i < scenarios.scenarios.len()
        invariant
            i <= scenarios.scenarios.len(),
            ids_fit(ss),
            ss == scenarios.scenarios@,
            dialler@ == (DiallerModel { queue: q0 + steps_all(ss.take(i as int)), ..old(dialler)@ }),
        decreases scenarios.scenarios.len() - i,
    {
        let sc = &scenarios.scenarios[i];
        assert(sc.id < 0xFFFF);
        push_steps(dialler, sc.id, sc.sequence.len());
        proof {
            assert(ss.take(i + 1).drop_last() =~= ss.take(i as int));
            assert(q0 + steps_all(ss.take(i + 1)) =~= q0 + steps_all(ss.take(i as int)) + scenario_steps(
                sc.id,
                sc.sequence@.len(),
            ));
        }
        i += 1;
    }
    proof {
        assert(ss.take(i as int) =~= ss);
    }
}

/// Queues the signals of the scenarios assigned to `dialler`.
pub fn assign_scenarios(dialler: &mut Dialler, scenarios: &Scenarios)
    requires
        ids_fit(scenarios.scenarios@),
    ensures
        final(dialler)@ == (DiallerModel {
            queue: old(dialler)@.queue + assigned_steps(*scenarios, old(dialler)@.account),
            ..old(dialler)@
        }),
{
    match scenarios.get_scenario_ids(dialler.account()) {
        Some(ids) => push_listed(dialler, scenarios, ids),
        None => push_all(dialler, scenarios),
    }
}

/// What each dialler is given to send: its assigned scenarios, or the default
/// signal when there is no configuration file or it defines no scenario.
pub open spec fn queued_steps(scenarios: Option<Scenarios>, account: Seq<char>) -> Seq<(u16, u16)> {
    match scenarios {
        Some(s) => if s.scenarios@.len() == 0 {
            seq![(0u16, 0u16)]
        } else {
            assigned_steps(s, account)
        },
        None => seq![(0u16, 0u16)],
    }
}

pub open spec fn scenarios_view(scenarios: Option<&Scenarios>) -> Option<Scenarios> {
    match scenarios {
        Some(s) => Some(*s),
        None => None,
    }
}

/// `d` after its queue is filled.
pub open spec fn filled(d: DiallerModel, scenarios: Option<Scenarios>) -> DiallerModel {
    DiallerModel { queue: d.queue + queued_steps(scenarios, d.account), ..d }
}

fn fill_queue(d: &mut Dialler, scenarios: Option<&Scenarios>)
    requires
        scenarios is Some ==> ids_fit(scenarios->0.scenarios@),
    ensures
        final(d)@ == filled(old(d)@, scenarios_view(scenarios)),
{
    let ghost q = d@.queue;
    proof {
        assert(q.push((0u16, 0u16)) =~= q + seq![(0u16, 0u16)]);
    }
    match scenarios {
        Some(s) => {
            if s.scenarios.len() == 0 {
                d.add_default_signal();
            } else {
                assign_scenarios(d, s);
            }
        },
        None => d.add_default_signal(),
    }
}

/// Fills the queue of every dialler.
pub fn setup_message_queues(diallers: &mut Vec<Dialler>, scenarios: Option<&Scenarios>)
    requires
        scenarios is Some ==> ids_fit(scenarios->0.scenarios@),
    ensures
        final(diallers)@.len() == old(diallers)@.len(),
        forall|i: int|
            0 <= i < old(diallers)@.len() ==> #[trigger] final(diallers)@[i]@ == filled(
                old(diallers)@[i]@,
                scenarios_view(scenarios),
            ),
{
    let ghost orig = diallers@;
    let n = diallers.len();
    let mut done: Vec<Dialler> = Vec::new();
    let mut i: usize = 0;
    while i < n
        invariant
            n == orig.len(),
            i <= n,
            diallers@ == orig.skip(i as int),
            done@.len() == i,
            scenarios is Some ==> ids_fit(scenarios->0.scenarios@),
            forall|k: int|
                0 <= k < i ==> #[trigger] done@[k]@ == filled(orig[k]@, scenarios_view(scenarios)),
        decreases n - i,
    {
        let mut d = diallers.remove(0);
        proof {
            assert(d == orig[i as int]);
            assert(diallers@ =~= orig.skip(i + 1));
        }
        fill_queue(&mut d, scenarios);
        done.push(d);
        i += 1;
    }
    *diallers = done;
}

} // verus!
