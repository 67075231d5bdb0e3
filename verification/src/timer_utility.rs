use vstd::prelude::*;
use crate::clock::{instant_now, nanos_since};
use crate::str_map::{StrMap, has_key, key_index, lookup, sorted_keys, lemma_lookup_at};
use crate::text::{push_str, push_u64, push_duration_debug, push_fixed, string_from, dec, duration_debug, fixed_text};

verus! {

broadcast use vstd::std_specs::vec::group_vec_axioms;

/// A named timer with nested child timers. Times are nanoseconds read from the
/// wall clock.
#[derive(Debug)]
pub struct Timer {
    /// What is being timed.
    pub name: String,
    /// When the timer started, on the monotonic clock.
    pub start: std::time::Instant,
    /// The recorded duration, once stopped.
    pub elapsed: Option<u64>,
    /// Timers started under this one, in the order they were started.
    pub children: Vec<Timer>,
}

/// The own time of `t`: its recorded duration, or `running` (the time it has
/// run so far) while it runs.
pub open spec fn elapsed_at(t: Timer, running: u64) -> u64 {
    match t.elapsed {
        Some(d) => d,
        None => running,
    }
}

/// The recorded duration of `t`, zero while it runs.
pub open spec fn recorded_ns(t: Timer) -> nat {
    match t.elapsed {
        Some(d) => d as nat,
        None => 0,
    }
}

/// The sum of the recorded durations of `ts`; running timers count nothing.
pub open spec fn recorded_sum(ts: Seq<Timer>) -> nat
    decreases ts.len(),
{
    if ts.len() == 0 {
        0
    } else {
        recorded_sum(ts.drop_last()) + recorded_ns(ts.last())
    }
}

/// The own time of `t` (`running` while it runs) plus the recorded durations
/// of its direct children.
pub open spec fn total_with_children_at(t: Timer, running: u64) -> nat {
    elapsed_at(t, running) as nat + recorded_sum(t.children@)
}

/// How many levels the tree under `t` has, `t` included.
pub open spec fn depth(t: Timer) -> nat
    decreases t, 1nat, 0nat,
{
    1 + forest_depth(t, t.children.len() as nat)
}

/// The greatest depth among the first `k` children of `t`.
pub open spec fn forest_depth(t: Timer, k: nat) -> nat
    decreases t, 0nat, k,
{
    if k == 0 || k > t.children.len() {
        0
    } else {
        proof {
            assert(decreases_to!(t => t.children));
        }
        let a = forest_depth(t, (k - 1) as nat);
        let b = depth(t.children[k - 1]);
        if a >= b { a } else { b }
    }
}

/// Two spaces per level of indentation.
pub open spec fn indentation(indent: nat) -> Seq<char> {
    Seq::new(2 * indent, |i: int| ' ')
}

/// The recorded duration of `t` as text, or `running` while it runs.
pub open spec fn elapsed_text(t: Timer) -> Seq<char> {
    match t.elapsed {
        Some(d) => duration_debug(d as nat),
        None => "running"@,
    }
}

/// The line of `t` in a tree listing.
pub open spec fn tree_line(t: Timer, indent: nat) -> Seq<char> {
    indentation(indent) + t.name@ + ": "@ + elapsed_text(t) + "\n"@
}

/// The listing of `t` and everything under it, each level indented one step more.
pub open spec fn tree_text(t: Timer, indent: nat) -> Seq<char>
    decreases t, 1nat, 0nat,
{
    tree_line(t, indent) + forest_text(t, t.children.len() as nat, indent + 1)
}

/// The listings of the first `k` children of `t`, one after the other.
pub open spec fn forest_text(t: Timer, k: nat, indent: nat) -> Seq<char>
    decreases t, 0nat, k,
{
    if k == 0 || k > t.children.len() {
        Seq::empty()
    } else {
        proof {
            assert(decreases_to!(t => t.children));
        }
        forest_text(t, (k - 1) as nat, indent) + tree_text(t.children[k - 1], indent)
    }
}

/// `{"name":..,"elapsed_ns":..,"children":[..]}` for `t` and everything under
/// it; a running timer shows zero.
pub open spec fn timer_json(t: Timer) -> Seq<char>
    decreases t, 1nat, 0nat,
{
    "{\"name\":\""@ + t.name@ + "\",\"elapsed_ns\":"@ + dec(recorded_ns(t))
        + ",\"children\":["@ + children_json(t, t.children.len() as nat) + "]}"@
}

/// The JSON of the first `k` children of `t`, separated by commas.
pub open spec fn children_json(t: Timer, k: nat) -> Seq<char>
    decreases t, 0nat, k,
{
    if k == 0 || k > t.children.len() {
        Seq::empty()
    } else {
        proof {
            assert(decreases_to!(t => t.children));
        }
        if k == 1 {
            timer_json(t.children[0])
        } else {
            children_json(t, (k - 1) as nat) + ","@ + timer_json(t.children[k - 1])
        }
    }
}

fn push_indentation(out: &mut String, indent: usize)
    ensures
        final(out)@ == old(out)@ + indentation(indent as nat),
{
    let ghost start = out@;
    let mut i: usize = 0;
    while i < indent
        invariant
            i <= indent,
            out@ == start + indentation(i as nat),
        decreases indent - i,
    {
        push_str(out, "  ");
        proof {
            reveal_strlit("  ");
        }
        assert(start + indentation((i + 1) as nat) =~= start + indentation(i as nat) + "  "@);
        i += 1;
    }
}

proof fn lemma_forest_depth_child(t: Timer, k: nat, j: int)
    requires
        k <= t.children.len(),
        0 <= j < k,
    ensures
        depth(t.children[j]) <= forest_depth(t, k),
    decreases k,
{
    if j < k - 1 {
        lemma_forest_depth_child(t, (k - 1) as nat, j);
    }
}

impl Timer {
    /// A running timer named `name`, started now.
    pub fn start(name: &str) -> (t: Timer)
        ensures
            t.name@ == name@,
            t.elapsed is None,
            t.children@.len() == 0,
    {
        Timer { name: string_from(name), start: instant_now(), elapsed: None, children: Vec::new() }
    }

    /// Records and returns the time since the start, on the monotonic clock.
    pub fn stop(&mut self) -> (d: u64)
        ensures
            final(self).elapsed == Some(d),
            final(self).name == old(self).name,
            final(self).start == old(self).start,
            final(self).children == old(self).children,
    {
        let d = nanos_since(&self.start);
        self.elapsed = Some(d);
        d
    }

    /// The recorded duration: `None` while the timer runs, the duration that
    /// `stop` recorded afterwards.
    pub fn elapsed(&self) -> (d: Option<u64>)
        ensures
            d == self.elapsed,
    {
        self.elapsed
    }

    /// Starts a child timer named `name` and hands it out.
    pub fn child(&mut self, name: &str) -> (c: &mut Timer)
        ensures
            c.name@ == name@,
            c.elapsed is None,
            c.children@.len() == 0,
            final(self).children@ == old(self).children@.push(*final(c)),
            final(self).name == old(self).name,
            final(self).start == old(self).start,
            final(self).elapsed == old(self).elapsed,
    {
        self.children.push(Timer::start(name));
        let n = self.children.len();
        &mut self.children[n - 1]
    }

    /// The own time of this timer (its recorded duration, or `running`, the
    /// time it has run so far, while it runs) plus the recorded durations of
    /// its direct children.
    pub fn total_with_children_at(&self, running: u64) -> (d: u128)
        ensures
            d == total_with_children_at(*self, running),
    {
        let mut total: u128 = match self.elapsed {
            Some(d) => d as u128,
            None => running as u128,
        };
        let mut i: usize = 0;
        while i < self.children.len()
            invariant
                i <= self.children@.len(),
                total == elapsed_at(*self, running) + recorded_sum(self.children@.take(i as int)),
                total <= (i + 1) * 0x1_0000_0000_0000_0000,
            decreases self.children.len() - i,
        {
            let d = match self.children[i].elapsed {
                Some(d) => d,
                None => 0,
            };
            assert(self.children@.take(i + 1).drop_last() =~= self.children@.take(i as int));
            assert((i + 2) * 0x1_0000_0000_0000_0000 <= 0x1_0000_0000_0000_0000 * 0x1_0000_0000_0000_0000) by (nonlinear_arith)
                requires i < usize::MAX;
            total = total + d as u128;
            i += 1;
        }
        assert(self.children@.take(i as int) =~= self.children@);
        total
    }

    /// The own time of this timer, counted on the monotonic clock up to now
    /// while it runs, plus the recorded durations of its direct children.
    pub fn total_with_children(&self) -> (d: u128)
        ensures
            self.elapsed is Some ==> d == total_with_children_at(*self, 0),
            exists|running: u64| d == total_with_children_at(*self, running),
    {
        let running = match self.elapsed {
            Some(_) => 0,
            None => nanos_since(&self.start),
        };
        self.total_with_children_at(running)
    }

    /// The number of direct children.
    pub fn child_count(&self) -> (n: usize)
        ensures
            n == self.children@.len(),
    {
        self.children.len()
    }

    /// The tree under this timer: one line per timer, `name: duration` (or
    /// `name: running`), indented two spaces per level from `indent` on.
    pub fn format_tree(&self, indent: usize) -> (s: String)
        requires
            indent + depth(*self) <= usize::MAX,
        ensures
            s@ == tree_text(*self, indent as nat),
        decreases *self,
    {
        let mut out = String::new();
        push_indentation(&mut out, indent);
        push_str(&mut out, self.name.as_str());
        push_str(&mut out, ": ");
        match self.elapsed {
            Some(d) => push_duration_debug(&mut out, d),
            None => push_str(&mut out, "running"),
        }
        push_str(&mut out, "\n");
        proof {
            reveal_strlit(": ");
            reveal_strlit("\n");
            reveal_strlit("running");
        }
        assert(out@ =~= tree_line(*self, indent as nat));
        let mut i: usize = 0;
        while i < self.children.len()
            invariant
                i <= self.children@.len(),
                indent + depth(*self) <= usize::MAX,
                out@ == tree_line(*self, indent as nat) + forest_text(*self, i as nat, (indent + 1) as nat),
            decreases self.children.len() - i,
        {
            proof {
                lemma_forest_depth_child(*self, self.children@.len(), i as int);
                assert(decreases_to!(*self => self.children));
            }
            let sub = self.children[i].format_tree(indent + 1);
            push_str(&mut out, sub.as_str());
            i += 1;
        }
        out
    }

    /// The JSON of this timer and everything under it; running timers show
    /// zero nanoseconds.
    pub fn to_json(&self) -> (s: String)
        ensures
            s@ == timer_json(*self),
        decreases *self,
    {
        let mut out = String::new();
        push_str(&mut out, "{\"name\":\"");
        push_str(&mut out, self.name.as_str());
        push_str(&mut out, "\",\"elapsed_ns\":");
        let d = match self.elapsed {
            Some(d) => d,
            None => 0,
        };
        push_u64(&mut out, d);
        push_str(&mut out, ",\"children\":[");
        let ghost head = out@;
        let mut i: usize = 0;
        while i < self.children.len()
            invariant
                i <= self.children@.len(),
                out@ == head + children_json(*self, i as nat),
            decreases self.children.len() - i,
        {
            if i > 0 {
                push_str(&mut out, ",");
            }
            proof {
                assert(decreases_to!(*self => self.children));
            }
            let sub = self.children[i].to_json();
            push_str(&mut out, sub.as_str());
            proof {
                reveal_strlit(",");
            }
            assert(out@ =~= head + children_json(*self, (i + 1) as nat));
            i += 1;
        }
        push_str(&mut out, "]}");
        assert(out@ =~= timer_json(*self));
        out
    }
}

/// Named timers, kept in increasing name order.
#[derive(Debug)]
pub struct TimerRegistry {
    timers: StrMap<Timer>,
}

/// The sum of the recorded durations of the timers in `e`; running timers
/// count nothing.
pub open spec fn registry_sum(e: Seq<(Seq<char>, Timer)>) -> nat
    decreases e.len(),
{
    if e.len() == 0 {
        0
    } else {
        registry_sum(e.drop_last()) + recorded_ns(e.last().1)
    }
}

/// The JSON of the timers in `e`, separated by commas.
pub open spec fn registry_items_json(e: Seq<(Seq<char>, Timer)>) -> Seq<char>
    decreases e.len(),
{
    if e.len() == 0 {
        Seq::empty()
    } else if e.len() == 1 {
        timer_json(e[0].1)
    } else {
        registry_items_json(e.drop_last()) + ","@ + timer_json(e.last().1)
    }
}

/// For each timer in `e`, its name and a colon on a line, then its tree one
/// level in.
pub open spec fn registry_text(e: Seq<(Seq<char>, Timer)>) -> Seq<char>
    decreases e.len(),
{
    if e.len() == 0 {
        Seq::empty()
    } else {
        registry_text(e.drop_last()) + e.last().0 + ":\n"@ + tree_text(e.last().1, 1)
    }
}

/// A timer as `Timer::start` makes it for `name`.
pub open spec fn fresh_timer(t: Timer, name: Seq<char>) -> bool {
    t.name@ == name && t.elapsed is None && t.children@.len() == 0
}

impl TimerRegistry {
    /// The timers by name, in increasing name order.
    pub closed spec fn view(&self) -> Seq<(Seq<char>, Timer)> {
        self.timers@
    }

    /// Every timer here is stored under its own name and has no children.
    pub closed spec fn wf(&self) -> bool {
        &&& sorted_keys(self.timers@)
        &&& forall|i: int| 0 <= i < self.timers@.len() ==> #[trigger] self.timers@[i].1.children@.len() == 0
    }

    /// An empty registry.
    pub fn new() -> (r: Self)
        ensures
            r@ == Seq::<(Seq<char>, Timer)>::empty(),
            r.wf(),
    {
        TimerRegistry { timers: StrMap::new() }
    }

    /// Starts a fresh timer under `name`, replacing any timer of that name.
    pub fn start(&mut self, name: &str)
        requires
            old(self).wf(),
        ensures
            final(self).wf(),
            has_key(old(self)@, name@) ==> final(self)@.len() == old(self)@.len() && forall|i: int|
                0 <= i < old(self)@.len() && i != key_index(old(self)@, name@) ==> #[trigger] final(self)@[i]
                    == old(self)@[i],
            !has_key(old(self)@, name@) ==> final(self)@.len() == old(self)@.len() + 1,
            has_key(final(self)@, name@),
            fresh_timer(final(self)@[key_index(final(self)@, name@)].1, name@),
            forall|k: Seq<char>| k != name@ ==> #[trigger] lookup(final(self)@, k) == lookup(old(self)@, k),
    {
        proof {
            use_type_invariant(&self.timers);
        }
        let t = Timer::start(name);
        let ghost old_view = self.timers@;
        let ghost x = (name@, t);
        self.timers.insert(string_from(name), t);
        proof {
            use_type_invariant(&self.timers);
            let nv = self.timers@;
            if has_key(old_view, name@) {
                lemma_lookup_at(nv, key_index(old_view, name@));
            } else {
                let pos = choose|pos: int| 0 <= pos <= old_view.len() && nv == old_view.insert(pos, x);
                lemma_lookup_at(nv, pos);
                assert forall|i: int| 0 <= i < nv.len() implies #[trigger] nv[i].1.children@.len() == 0 by {
                    if i < pos {
                        assert(nv[i] == old_view[i]);
                    } else if i > pos {
                        assert(nv[i] == old_view[i - 1]);
                    }
                }
            }
        }
    }

    /// Stops the timer named `name` and returns its time; `None` when there is
    /// no such timer.
    pub fn stop(&mut self, name: &str) -> (r: Option<u64>)
        requires
            old(self).wf(),
        ensures
            final(self).wf(),
            match r {
                None => !has_key(old(self)@, name@) && final(self)@ == old(self)@,
                Some(d) => {
                    let i = key_index(old(self)@, name@);
                    let t = old(self)@[i].1;
                    &&& has_key(old(self)@, name@)
                    &&& final(self)@ == old(self)@.update(i, (name@, Timer { elapsed: Some(d), ..t }))
                },
            },
    {
        proof {
            use_type_invariant(&self.timers);
        }
        match self.timers.index_of(name) {
            None => None,
            Some(i) => {
                let ghost old_view = self.timers@;
                let placeholder = Timer { name: String::new(), start: instant_now(), elapsed: None, children: Vec::new() };
                let mut t = self.timers.set_value_at(i, placeholder);
                let d = t.stop();
                self.timers.set_value_at(i, t);
                proof {
                    assert(self.timers@ =~= old_view.update(i as int, (name@, Timer { elapsed: Some(d), ..old_view[i as int].1 })));
                    assert forall|j: int| 0 <= j < self.timers@.len() implies #[trigger] self.timers@[j].1.children@.len() == 0 by {
                        assert(old_view[j].1.children@.len() == 0);
                    }
                }
                Some(d)
            },
        }
    }

    /// The timer named `name`, if any.
    pub fn get(&self, name: &str) -> (r: Option<&Timer>)
        ensures
            match lookup(self@, name@) {
                Some(t) => r == Some(&t),
                None => r is None,
            },
    {
        self.timers.get(name)
    }

    /// The recorded duration of the timer named `name`: `None` when there is no
    /// such timer or while it runs.
    pub fn elapsed(&self, name: &str) -> (r: Option<u64>)
        ensures
            match lookup(self@, name@) {
                Some(t) => r == t.elapsed,
                None => r is None,
            },
    {
        match self.timers.get(name) {
            Some(t) => t.elapsed(),
            None => None,
        }
    }

    /// The sum of the recorded durations of all timers; running timers count
    /// nothing.
    pub fn total_time(&self) -> (d: u128)
        ensures
            d == registry_sum(self@),
    {
        let mut total: u128 = 0;
        let mut i: usize = 0;
        let n = self.timers.len();
        while i < n
            invariant
                n == self@.len(),
                i <= n,
                total == registry_sum(self@.take(i as int)),
                total <= i * 0x1_0000_0000_0000_0000,
            decreases n - i,
        {
            let t = self.timers.value_at(i);
            let d = match t.elapsed() {
                Some(d) => d,
                None => 0,
            };
            assert(self@.take(i + 1).drop_last() =~= self@.take(i as int));
            assert((i + 1) * 0x1_0000_0000_0000_0000 <= 0x1_0000_0000_0000_0000 * 0x1_0000_0000_0000_0000) by (nonlinear_arith)
                requires i < usize::MAX;
            total = total + d as u128;
            i += 1;
        }
        assert(self@.take(n as int) =~= self@);
        total
    }

    /// The number of timers.
    pub fn count(&self) -> (n: usize)
        ensures
            n == self@.len(),
    {
        self.timers.len()
    }

    /// Removes every timer.
    pub fn reset(&mut self)
        ensures
            final(self)@ == Seq::<(Seq<char>, Timer)>::empty(),
            final(self).wf(),
    {
        self.timers.clear();
    }

    /// `[..]` holding the JSON of every timer, in name order.
    pub fn to_json(&self) -> (s: String)
        ensures
            s@ == "["@ + registry_items_json(self@) + "]"@,
    {
        let mut out = String::new();
        push_str(&mut out, "[");
        let ghost head = out@;
        let n = self.timers.len();
        let mut i: usize = 0;
        while i < n
            invariant
                n == self@.len(),
                i <= n,
                out@ == head + registry_items_json(self@.take(i as int)),
            decreases n - i,
        {
            if i > 0 {
                push_str(&mut out, ",");
            }
            let j = self.timers.value_at(i).to_json();
            push_str(&mut out, j.as_str());
            proof {
                reveal_strlit(",");
                assert(self@.take(i + 1).drop_last() =~= self@.take(i as int));
                assert(self@.take(i + 1)[0] == self@[0]);
            }
            assert(out@ =~= head + registry_items_json(self@.take(i + 1)));
            i += 1;
        }
        assert(self@.take(n as int) =~= self@);
        push_str(&mut out, "]");
        proof {
            reveal_strlit("[");
            reveal_strlit("]");
        }
        assert(out@ =~= "["@ + registry_items_json(self@) + "]"@);
        out
    }

    /// Every timer's name on a line, then its tree one level in.
    pub fn format_all(&self) -> (s: String)
        requires
            self.wf(),
        ensures
            s@ == registry_text(self@),
    {
        let mut out = String::new();
        let n = self.timers.len();
        let mut i: usize = 0;
        while i < n
            invariant
                n == self@.len(),
                i <= n,
                self.wf(),
                out@ == registry_text(self@.take(i as int)),
            decreases n - i,
        {
            push_str(&mut out, self.timers.key_at(i).as_str());
            push_str(&mut out, ":\n");
            let t = self.timers.value_at(i);
            assert(t.children@.len() == 0);
            assert(depth(*t) == 1);
            let sub = t.format_tree(1);
            push_str(&mut out, sub.as_str());
            assert(self@.take(i + 1).drop_last() =~= self@.take(i as int));
            assert(out@ =~= registry_text(self@.take(i + 1)));
            i += 1;
        }
        assert(self@.take(n as int) =~= self@);
        out
    }
}

impl Default for TimerRegistry {
    fn default() -> (r: Self)
        ensures
            r@ == Seq::<(Seq<char>, Timer)>::empty(),
            r.wf(),
    {
        TimerRegistry::new()
    }
}

/// A duration of `ns` nanoseconds in the largest unit it reaches (`s`, `ms`,
/// `\u{b5}s`) with `decimals` decimals, or in whole `ns` below a microsecond.
pub open spec fn human_duration(ns: nat, decimals: nat) -> Seq<char> {
    if ns >= 1_000_000_000 {
        fixed_text(ns, (9 - decimals) as nat, decimals) + "s"@
    } else if ns >= 1_000_000 {
        fixed_text(ns, (6 - decimals) as nat, decimals) + "ms"@
    } else if ns >= 1_000 {
        fixed_text(ns, (3 - decimals) as nat, decimals) + "\u{b5}s"@
    } else {
        dec(ns) + "ns"@
    }
}

/// The text of `human_duration`.
pub fn human_duration_text(ns: u64, decimals: u32) -> (s: String)
    requires
        1 <= decimals <= 3,
    ensures
        s@ == human_duration(ns as nat, decimals as nat),
{
    let mut out = String::new();
    if ns >= 1_000_000_000 {
        push_fixed(&mut out, ns, 9 - decimals, decimals);
        push_str(&mut out, "s");
    } else if ns >= 1_000_000 {
        push_fixed(&mut out, ns, 6 - decimals, decimals);
        push_str(&mut out, "ms");
    } else if ns >= 1_000 {
        push_fixed(&mut out, ns, 3 - decimals, decimals);
        push_str(&mut out, "\u{b5}s");
    } else {
        push_u64(&mut out, ns);
        push_str(&mut out, "ns");
    }
    assert(out@ =~= human_duration(ns as nat, decimals as nat));
    out
}

/// A duration of `d` nanoseconds with three decimals in its largest unit:
/// `1.500s`, `2.000ms`, `3.250\u{b5}s`, or `500ns`.
pub fn format_duration(d: u64) -> (s: String)
    ensures
        s@ == human_duration(d as nat, 3),
{
    human_duration_text(d, 3)
}

} // verus!
