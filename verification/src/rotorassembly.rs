//! The rotor assembly: three rotors and a reflector, the stepping of the
//! rotors and the substitution through them.
use vstd::prelude::*;
use crate::alphabet::{is_capital, is_capital_letter, lemma_wrap};
use crate::error::EnigmaError;
use crate::rotor::{
    is_reflector_wiring, lemma_reflector_involution, lemma_rotor_inverse, reflect,
    reflector_from_source, rotor_from_source, Encode, Reflector, Rotor, RotorModel,
};

verus! {

/// What a rotor assembly is, as plain values: its rotors, fastest first,
/// and the wiring of its reflector.
pub struct AssemblyModel {
    pub rotors: Seq<RotorModel>,
    pub reflector: Seq<char>,
}

/// The carry pass of one step, from rotor `i` on: each rotor in turn has
/// its turnover flag cleared, and where the flag was up, the next rotor is
/// turned one step on. The last rotor has no neighbour to carry to and is
/// left as it is.
pub open spec fn carried(rotors: Seq<RotorModel>, i: int) -> Seq<RotorModel>
    decreases rotors.len() - i,
{
    if i < 0 || i + 1 >= rotors.len() {
        rotors
    } else {
        let cleared = rotors.update(i, rotors[i].cleared());
        let turned = if rotors[i].turnover {
            cleared.update(i + 1, rotors[i + 1].advanced())
        } else {
            cleared
        };
        carried(turned, i + 1)
    }
}

/// The symbol after the forward pass through the first `n` rotors.
pub open spec fn forward_through(rotors: Seq<RotorModel>, n: int, c: char) -> char
    decreases n,
{
    if n <= 0 {
        c
    } else {
        rotors[n - 1].forward(forward_through(rotors, n - 1, c))
    }
}

/// The symbol after the reverse pass through the first `n` rotors, the
/// slowest of them first.
pub open spec fn reverse_through(rotors: Seq<RotorModel>, n: int, c: char) -> char
    decreases n,
{
    if n <= 0 {
        c
    } else {
        reverse_through(rotors, n - 1, rotors[n - 1].reverse(c))
    }
}

impl AssemblyModel {
    /// Three rotors, each in order, and a reflector wiring.
    pub open spec fn wf(self) -> bool {
        &&& self.rotors.len() == 3
        &&& forall|i: int| 0 <= i < 3 ==> (#[trigger] self.rotors[i]).wf()
        &&& is_reflector_wiring(self.reflector)
    }

    /// The assembly after the step that comes before each substitution: the
    /// fastest rotor is turned one step on, then the carry pass runs once
    /// from the fastest rotor to the slowest.
    pub open spec fn stepped(self) -> AssemblyModel {
        AssemblyModel {
            rotors: carried(self.rotors.update(0, self.rotors[0].advanced()), 0),
            ..self
        }
    }

    /// The assembly after `n` steps.
    pub open spec fn after(self, n: nat) -> AssemblyModel
        decreases n,
    {
        if n == 0 {
            self
        } else {
            self.after((n - 1) as nat).stepped()
        }
    }

    /// The substitution at the present offsets: forward through the rotors,
    /// fastest first, through the reflector, and back through the rotors,
    /// slowest first.
    pub open spec fn substitute(self, c: char) -> char {
        reverse_through(
            self.rotors,
            self.rotors.len() as int,
            reflect(self.reflector, forward_through(self.rotors, self.rotors.len() as int, c)),
        )
    }

    /// The assembly with its rotors turned to the given offsets; the
    /// turnover flags stay.
    pub open spec fn with_positions(self, positions: Seq<int>) -> AssemblyModel {
        AssemblyModel {
            rotors: Seq::new(self.rotors.len(), |i: int| self.rotors[i].at(positions[i])),
            ..self
        }
    }
}

/// The carry pass changes offsets and flags only: each rotor keeps its
/// wiring and notch and stays in order, and the rotors before `i` are not
/// touched.
pub proof fn lemma_carried(rotors: Seq<RotorModel>, i: int)
    requires
        forall|k: int| 0 <= k < rotors.len() ==> (#[trigger] rotors[k]).wf(),
    ensures
        carried(rotors, i).len() == rotors.len(),
        forall|k: int|
            0 <= k < rotors.len() ==> {
                let r = #[trigger] carried(rotors, i)[k];
                r.wf() && r.wiring == rotors[k].wiring && r.notch == rotors[k].notch
            },
        forall|k: int| 0 <= k < i && k < rotors.len() ==> #[trigger] carried(rotors, i)[k] == rotors[k],
    decreases rotors.len() - i,
{
    if i < 0 || i + 1 >= rotors.len() {
    } else {
        let cleared = rotors.update(i, rotors[i].cleared());
        let turned = if rotors[i].turnover {
            cleared.update(i + 1, rotors[i + 1].advanced())
        } else {
            cleared
        };
        assert forall|k: int| 0 <= k < turned.len() implies (#[trigger] turned[k]).wf() by {
            assert(rotors[k].wf());
        }
        lemma_carried(turned, i + 1);
        assert forall|k: int| 0 <= k < rotors.len() implies {
            let r = #[trigger] carried(rotors, i)[k];
            r.wf() && r.wiring == rotors[k].wiring && r.notch == rotors[k].notch
        } by {
            assert(rotors[k].wf());
            let r = carried(turned, i + 1)[k];
            assert(r.wiring == turned[k].wiring);
        }
    }
}

/// A step keeps the assembly in order and changes offsets and flags only.
pub proof fn lemma_stepped(a: AssemblyModel)
    requires
        a.wf(),
    ensures
        a.stepped().wf(),
        a.stepped().reflector == a.reflector,
        forall|k: int|
            0 <= k < 3 ==> (#[trigger] a.stepped().rotors[k]).wiring == a.rotors[k].wiring
                && a.stepped().rotors[k].notch == a.rotors[k].notch,
{
    let first = a.rotors.update(0, a.rotors[0].advanced());
    assert forall|k: int| 0 <= k < first.len() implies (#[trigger] first[k]).wf() by {
        assert(a.rotors[k].wf());
    }
    lemma_carried(first, 0);
    assert forall|k: int| 0 <= k < 3 implies (#[trigger] a.stepped().rotors[k]).wiring
        == a.rotors[k].wiring && a.stepped().rotors[k].notch == a.rotors[k].notch by {
        assert(first[k].wiring == a.rotors[k].wiring);
    }
}

/// Any number of steps keeps the assembly in order.
pub proof fn lemma_after(a: AssemblyModel, n: nat)
    requires
        a.wf(),
    ensures
        a.after(n).wf(),
        a.after(n).reflector == a.reflector,
    decreases n,
{
    if n > 0 {
        lemma_after(a, (n - 1) as nat);
        lemma_stepped(a.after((n - 1) as nat));
    }
}

/// The passes through the rotors stay inside the alphabet, and the reverse
/// pass undoes the forward pass, in both orders.
pub proof fn lemma_through_inverse(rotors: Seq<RotorModel>, n: int, c: char)
    requires
        forall|k: int| 0 <= k < rotors.len() ==> (#[trigger] rotors[k]).wf(),
        n <= rotors.len(),
        is_capital(c),
    ensures
        is_capital(forward_through(rotors, n, c)),
        is_capital(reverse_through(rotors, n, c)),
        reverse_through(rotors, n, forward_through(rotors, n, c)) == c,
        forward_through(rotors, n, reverse_through(rotors, n, c)) == c,
    decreases n,
{
    if n > 0 {
        let last = rotors[n - 1];
        assert(last.wf());
        lemma_through_inverse(rotors, n - 1, c);
        lemma_rotor_inverse(last, forward_through(rotors, n - 1, c));
        lemma_rotor_inverse(last, c);
        lemma_through_inverse(rotors, n - 1, last.reverse(c));
    }
}

/// At fixed offsets the substitution of an assembly is its own inverse and
/// maps no symbol to itself.
pub proof fn lemma_substitute_involution(a: AssemblyModel, c: char)
    requires
        a.wf(),
        is_capital(c),
    ensures
        is_capital(a.substitute(c)),
        a.substitute(a.substitute(c)) == c,
        a.substitute(c) != c,
{
    let inward = forward_through(a.rotors, 3, c);
    lemma_through_inverse(a.rotors, 3, c);
    lemma_reflector_involution(a.reflector, inward);
    let turned = reflect(a.reflector, inward);
    lemma_through_inverse(a.rotors, 3, turned);
    let outward = reverse_through(a.rotors, 3, turned);
    assert(forward_through(a.rotors, 3, outward) == turned);
    if outward == c {
        assert(turned == inward);
    }
}

/// One step, rotor by rotor. The fastest rotor is turned on and its flag
/// is consumed. The middle rotor is turned on if the fastest rotor's flag
/// was up, and its flag is consumed too. The slowest rotor is turned on if
/// the middle rotor's flag was up, and keeps its own flag.
pub proof fn lemma_stepped_rotors(a: AssemblyModel)
    requires
        a.wf(),
    ensures
        a.stepped().rotors.len() == 3,
        a.stepped().rotors[0] == a.rotors[0].advanced().cleared(),
        a.stepped().rotors[1] == (if a.rotors[0].advanced().turnover {
            a.rotors[1].advanced().cleared()
        } else {
            a.rotors[1].cleared()
        }),
        a.stepped().rotors[2] == (if a.rotors[0].advanced().turnover {
            if a.rotors[1].advanced().turnover {
                a.rotors[2].advanced()
            } else {
                a.rotors[2]
            }
        } else {
            if a.rotors[1].turnover {
                a.rotors[2].advanced()
            } else {
                a.rotors[2]
            }
        }),
{
    reveal_with_fuel(carried, 3);
}

impl AssemblyModel {
    /// Whether the step taken from this state raises the turnover flag of
    /// the fastest rotor.
    pub open spec fn turns_over(self) -> bool {
        self.rotors[0].advanced().turnover
    }
}

/// The number of steps that a rotor takes before the step that brings it
/// onto its notch.
pub open spec fn steps_before_notch(r: RotorModel) -> nat {
    ((r.notch - r.position - 1) % 26) as nat
}

/// After `n` steps the fastest rotor stands `n` places on, modulo 26, and
/// from the first step on its turnover flag has been consumed.
pub proof fn lemma_fastest_rotor_after(a: AssemblyModel, n: nat)
    requires
        a.wf(),
    ensures
        a.after(n).wf(),
        a.after(n).rotors[0].position == (a.rotors[0].position + n) % 26,
        a.after(n).rotors[0].notch == a.rotors[0].notch,
        n > 0 ==> !a.after(n).rotors[0].turnover,
    decreases n,
{
    if n > 0 {
        let before = a.after((n - 1) as nat);
        lemma_fastest_rotor_after(a, (n - 1) as nat);
        lemma_stepped(before);
        lemma_stepped_rotors(before);
    }
}

/// The fastest rotor has a period of 26 steps: after 26 steps it stands
/// where it stood.
pub proof fn lemma_stepping_period(a: AssemblyModel)
    requires
        a.wf(),
    ensures
        a.after(26).rotors[0].position == a.rotors[0].position,
{
    lemma_fastest_rotor_after(a, 26);
}

/// Counting round the alphabet: `k` steps on from `position`, one more
/// step leads onto the notch just when `k` is the number of places from
/// `position + 1` to the notch.
proof fn lemma_steps_to_notch(position: int, notch: int, k: int)
    requires
        0 <= position < 26,
        0 <= notch < 26,
        0 <= k < 26,
    ensures
        0 <= (notch - position - 1) % 26 < 26,
        ((position + k) % 26 + 1) % 26 == notch <==> k == (notch - position - 1) % 26,
        ((position + k) % 26 + 1) % 26 == (position + k + 1) % 26,
{
    lemma_wrap(notch - position - 1);
    lemma_wrap(position + k);
    lemma_wrap((position + k) % 26 + 1);
    lemma_wrap(position + k + 1);
}

/// Within 26 steps the turnover flag of the fastest rotor is raised exactly
/// once: by the step that brings the rotor onto its notch. This is said of
/// an assembly whose fastest rotor starts with its flag down.
pub proof fn lemma_turnover_once(a: AssemblyModel, k: nat)
    requires
        a.wf(),
        !a.rotors[0].turnover,
        k < 26,
    ensures
        steps_before_notch(a.rotors[0]) < 26,
        a.after(k).turns_over() <==> k == steps_before_notch(a.rotors[0]),
        a.after(k).turns_over() ==> a.after(k + 1).rotors[0].position == a.rotors[0].notch,
{
    let first = a.rotors[0];
    assert(first.wf());
    lemma_fastest_rotor_after(a, k);
    lemma_fastest_rotor_after(a, k + 1);
    lemma_steps_to_notch(first.position, first.notch, k as int);
    let now = a.after(k).rotors[0];
    assert(!now.turnover);
    assert(now.position == (first.position + k) % 26);
    assert(now.advanced().turnover == ((now.position + 1) % 26 == first.notch));
}

/// The assembly of rotors `I`, `II` and `III`, fastest first, and reflector
/// `B`, as a wiring source holds them, or what is wrong with the first of
/// them that the source does not hold in order.
pub open spec fn default_assembly(content: Seq<char>) -> Result<AssemblyModel, EnigmaError> {
    match rotor_from_source(content, "I"@) {
        Err(e) => Err(e),
        Ok(first) => match rotor_from_source(content, "II"@) {
            Err(e) => Err(e),
            Ok(second) => match rotor_from_source(content, "III"@) {
                Err(e) => Err(e),
                Ok(third) => match reflector_from_source(content, "B"@) {
                    Err(e) => Err(e),
                    Ok(reflector) => Ok(
                        AssemblyModel { rotors: seq![first, second, third], reflector },
                    ),
                },
            },
        },
    }
}

/// The rotors of a list, as plain values.
pub open spec fn rotor_views(rotors: Seq<Rotor>) -> Seq<RotorModel> {
    Seq::new(rotors.len(), |i: int| rotors[i]@)
}

/// Three rotors, fastest first, and a reflector.
pub struct RotorAssembly {
    rotors: Vec<Rotor>,
    reflector: Reflector,
}

impl View for RotorAssembly {
    type V = AssemblyModel;

    closed spec fn view(&self) -> AssemblyModel {
        AssemblyModel { rotors: rotor_views(self.rotors@), reflector: self.reflector@ }
    }
}

impl RotorAssembly {
    #[verifier::type_invariant]
    spec fn three_rotors(&self) -> bool {
        self.rotors@.len() == 3
    }

    /// Looks at each part once: what holds of every rotor and of every
    /// reflector then holds of the parts of this assembly.
    pub(crate) fn parts_in_order(&self)
        ensures
            self@.wf(),
    {
        proof {
            use_type_invariant(self);
            use_type_invariant(&self.reflector);
            self.reflector.lemma_well_formed();
        }
        for i in 0..self.rotors.len()
            invariant
                self.rotors@.len() == 3,
                forall|k: int| 0 <= k < i ==> (#[trigger] self.rotors@[k])@.wf(),
        {
            let rotor = &self.rotors[i];
            proof {
                use_type_invariant(rotor);
                rotor.lemma_well_formed();
            }
        }
        assert forall|k: int| 0 <= k < 3 implies (#[trigger] self@.rotors[k]).wf() by {
            assert(self.rotors@[k]@.wf());
        }
    }

    /// The offsets of the three rotors, fastest first.
    pub fn get_positions(&self) -> (positions: [usize; 3])
        ensures
            forall|i: int| 0 <= i < 3 ==> positions@[i] == (#[trigger] self@.rotors[i]).position,
            forall|i: int| 0 <= i < 3 ==> positions@[i] < 26,
    {
        proof {
            use_type_invariant(self);
        }
        [
            self.rotors[0].get_position(),
            self.rotors[1].get_position(),
            self.rotors[2].get_position(),
        ]
    }

    /// Turns the three rotors to the given offsets, fastest first. Each
    /// offset must be below 26, else `PositionOutOfRange` and nothing
    /// changes. The turnover flags stay as they are.
    pub fn set_positions(&mut self, positions: [usize; 3]) -> (result: Result<(), EnigmaError>)
        ensures
            (forall|i: int| 0 <= i < 3 ==> positions@[i] < 26) ==> result is Ok && final(self)@
                == old(self)@.with_positions(Seq::new(3, |i: int| positions@[i] as int)),
            !(forall|i: int| 0 <= i < 3 ==> positions@[i] < 26) ==> result == Err::<
                (),
                EnigmaError,
            >(EnigmaError::PositionOutOfRange) && final(self)@ == old(self)@,
            final(self)@.wf(),
    {
        self.parts_in_order();
        for i in 0..3
            invariant
                forall|k: int| 0 <= k < i ==> positions@[k] < 26,
                *self == *old(self),
                self@.wf(),
        {
            if positions[i] >= 26 {
                return Err(EnigmaError::PositionOutOfRange);
            }
        }
        let ghost start = self@;
        let ghost target = start.with_positions(Seq::new(3, |i: int| positions@[i] as int));
        for i in 0..3
            invariant
                start.wf(),
                forall|k: int| 0 <= k < 3 ==> positions@[k] < 26,
                target == start.with_positions(Seq::new(3, |i: int| positions@[i] as int)),
                self@.wf(),
                self@.reflector == start.reflector,
                forall|k: int| 0 <= k < i ==> #[trigger] self@.rotors[k] == target.rotors[k],
                forall|k: int| i <= k < 3 ==> #[trigger] self@.rotors[k] == start.rotors[k],
        {
            let ghost before = self@;
            match self.rotors[i].set_position(positions[i]) {
                Ok(()) => {},
                Err(e) => { return Err(e); },
            }
            proof {
                assert(self@.rotors =~= before.rotors.update(
                    i as int,
                    before.rotors[i as int].at(positions@[i as int] as int),
                ));
                assert forall|k: int| 0 <= k < 3 implies (#[trigger] self@.rotors[k]).wf() by {
                    assert(before.rotors[k].wf());
                }
            }
        }
        assert(self@.rotors =~= target.rotors);
        Ok(())
    }

    /// An assembly of three rotors, fastest first, and a reflector. Any
    /// other number of rotors is refused with `WrongRotorCount`.
    pub fn new(rotors: Vec<Rotor>, reflector: Reflector) -> (result: Result<Self, EnigmaError>)
        ensures
            rotors@.len() != 3 ==> (result matches Err(e) && e == EnigmaError::WrongRotorCount),
            rotors@.len() == 3 ==> (result matches Ok(assembly) && assembly@.wf() && assembly@ == (
            AssemblyModel { rotors: rotor_views(rotors@), reflector: reflector@ })),
    {
        if rotors.len() != 3 {
            return Err(EnigmaError::WrongRotorCount);
        }
        for i in 0..3
            invariant
                rotors@.len() == 3,
                forall|k: int| 0 <= k < i ==> (#[trigger] rotors@[k])@.wf(),
        {
            let rotor = &rotors[i];
            proof {
                use_type_invariant(rotor);
                rotor.lemma_well_formed();
            }
        }
        proof {
            use_type_invariant(&reflector);
            reflector.lemma_well_formed();
            assert forall|k: int| 0 <= k < 3 implies (#[trigger] rotor_views(rotors@)[k]).wf() by {
                assert(rotors@[k]@.wf());
            }
        }
        Ok(RotorAssembly { rotors, reflector })
    }

    /// The assembly of rotors `I`, `II` and `III`, fastest first, and
    /// reflector `B`, built from the records of a wiring source.
    pub fn new_default(source: &str) -> (result: Result<RotorAssembly, EnigmaError>)
        ensures
            default_assembly(source@) matches Ok(model) ==> (result matches Ok(assembly)
                && assembly@ == model && assembly@.wf()),
            default_assembly(source@) matches Err(error) ==> (result matches Err(e) && e
                == error),
    {
        let mut rotors: Vec<Rotor> = Vec::new();
        let ids: [&str; 3] = ["I", "II", "III"];
        for i in 0..3
            invariant
                ids@.len() == 3,
                ids@[0]@ == "I"@,
                ids@[1]@ == "II"@,
                ids@[2]@ == "III"@,
                rotors@.len() == i,
                i > 0 ==> rotor_from_source(source@, "I"@) == Ok::<RotorModel, EnigmaError>(
                    rotors@[0]@,
                ),
                i > 1 ==> rotor_from_source(source@, "II"@) == Ok::<RotorModel, EnigmaError>(
                    rotors@[1]@,
                ),
                i > 2 ==> rotor_from_source(source@, "III"@) == Ok::<RotorModel, EnigmaError>(
                    rotors@[2]@,
                ),
        {
            match Rotor::from_source(source, ids[i]) {
                Ok(rotor) => rotors.push(rotor),
                Err(e) => { return Err(e); },
            }
        }
        let reflector = match Reflector::from_source(source, "B") {
            Ok(reflector) => reflector,
            Err(e) => { return Err(e); },
        };
        assert(rotor_views(rotors@) =~= seq![rotors@[0]@, rotors@[1]@, rotors@[2]@]);
        RotorAssembly::new(rotors, reflector)
    }

    /// Steps the assembly, then substitutes the symbol: forward through the
    /// rotors, through the reflector, and back through the rotors.
    ///
    /// Anything that is not a symbol of the alphabet is refused with
    /// `InvalidSymbol`, before the assembly steps.
    pub fn encode_char(&mut self, input: char) -> (output: Result<char, EnigmaError>)
        ensures
            is_capital(input) ==> output == Ok::<char, EnigmaError>(
                old(self)@.stepped().substitute(input),
            ) && final(self)@ == old(self)@.stepped(),
            !is_capital(input) ==> output == Err::<char, EnigmaError>(EnigmaError::InvalidSymbol)
                && final(self)@ == old(self)@,
            output matches Ok(c) ==> is_capital(c) && c != input,
            final(self)@.wf(),
    {
        self.parts_in_order();
        if !is_capital_letter(input) {
            return Err(EnigmaError::InvalidSymbol);
        }
        self.increment_cypher_rotor_positions();
        proof {
            lemma_substitute_involution(self@, input);
            lemma_through_inverse(self@.rotors, 3, input);
        }
        let inward = match self.encode_forward(input) {
            Ok(symbol) => symbol,
            Err(e) => { return Err(e); },
        };
        let turned = match self.reflector.encode_char(inward) {
            Ok(symbol) => symbol,
            Err(e) => { return Err(e); },
        };
        self.encode_reverse(turned)
    }

    /// The forward pass: through the rotors, fastest first.
    fn encode_forward(&self, input: char) -> (output: Result<char, EnigmaError>)
        requires
            is_capital(input),
        ensures
            output == Ok::<char, EnigmaError>(forward_through(self@.rotors, 3, input)),
    {
        self.parts_in_order();
        let mut output = input;
        for i in 0..self.rotors.len()
            invariant
                self@.wf(),
                is_capital(input),
                output == forward_through(self@.rotors, i as int, input),
        {
            proof {
                lemma_through_inverse(self@.rotors, i as int, input);
            }
            output = match self.rotors[i].encode_char(output) {
                Ok(symbol) => symbol,
                Err(e) => { return Err(e); },
            };
        }
        Ok(output)
    }

    /// The step that comes before each substitution: the fastest rotor is
    /// turned one step on; then, from the fastest rotor to the slowest but
    /// one, each rotor has its turnover flag read and cleared, and where it
    /// was up, the next rotor is turned one step on.
    pub fn increment_cypher_rotor_positions(&mut self)
        ensures
            final(self)@ == old(self)@.stepped(),
            final(self)@.wf(),
    {
        self.parts_in_order();
        proof {
            lemma_stepped(self@);
        }
        let ghost target = self@.stepped();
        let ghost first = self@;
        self.rotors[0].increment_position();
        assert(self@.rotors =~= first.rotors.update(0, first.rotors[0].advanced()));
        assert forall|k: int| 0 <= k < 3 implies (#[trigger] self@.rotors[k]).wf() by {
            assert(first.rotors[k].wf());
        }
        let slower = self.rotors.len() - 1;
        for i in 0..slower
            invariant
                slower == 2,
                self@.wf(),
                self@.reflector == target.reflector,
                carried(self@.rotors, i as int) == target.rotors,
        {
            let ghost before = self@.rotors;
            let turnover_has_occured = self.rotors[i].turnover_has_occurred();
            self.rotors[i].reset_turnover_state();
            let ghost cleared = self@.rotors;
            assert(cleared =~= before.update(i as int, before[i as int].cleared()));
            assert forall|k: int| 0 <= k < 3 implies (#[trigger] cleared[k]).wf() by {
                assert(before[k].wf());
            }
            if turnover_has_occured {
                self.rotors[i + 1].increment_position();
                assert(self@.rotors =~= cleared.update(i + 1, before[i + 1].advanced()));
                assert forall|k: int| 0 <= k < 3 implies (#[trigger] self@.rotors[k]).wf() by {
                    assert(cleared[k].wf());
                }
            }
        }
    }

    /// The reverse pass: back through the rotors, slowest first.
    fn encode_reverse(&self, input: char) -> (output: Result<char, EnigmaError>)
        requires
            is_capital(input),
        ensures
            output == Ok::<char, EnigmaError>(reverse_through(self@.rotors, 3, input)),
    {
        self.parts_in_order();
        let mut output = input;
        let mut i = self.rotors.len();
        while i > 0
            invariant
                i <= 3,
                self@.wf(),
                is_capital(output),
                reverse_through(self@.rotors, i as int, output) == reverse_through(
                    self@.rotors,
                    3,
                    input,
                ),
            decreases i,
        {
            i -= 1;
            proof {
                assert(self@.rotors[i as int].wf());
                lemma_rotor_inverse(self@.rotors[i as int], output);
            }
            output = match self.rotors[i].encode_char_reverse(output) {
                Ok(symbol) => symbol,
                Err(e) => { return Err(e); },
            };
        }
        Ok(output)
    }
}

} // verus!
