//! The outputs that the compositor has announced.

use vstd::prelude::*;

use crate::frame::at_least_one;
use crate::surface::{wallpaper_settings, wallpaper_surface, SurfaceSettings};
use crate::text::{decimal, decimal_text};

verus! {

/// One output. `global` is the number under which the compositor announced it.
#[derive(Debug)]
pub struct OutputState {
    pub global: u32,
    pub name: String,
    pub width: u32,
    pub height: u32,
    pub scale: i32,
    pub has_surface: bool,
    pub configured: bool,
}

/// What an `OutputState` holds.
pub struct OutputView {
    pub global: u32,
    pub name: Seq<char>,
    pub width: u32,
    pub height: u32,
    pub scale: i32,
    pub has_surface: bool,
    pub configured: bool,
}

impl View for OutputState {
    type V = OutputView;

    open spec fn view(&self) -> OutputView {
        OutputView {
            global: self.global,
            name: self.name@,
            width: self.width,
            height: self.height,
            scale: self.scale,
            has_surface: self.has_surface,
            configured: self.configured,
        }
    }
}

/// The outputs, each announced number once, in the order in which they came.
#[derive(Debug)]
pub struct Outputs {
    list: Vec<OutputState>,
}

/// Whether no announced number comes twice.
pub open spec fn distinct_globals(outputs: Seq<OutputView>) -> bool {
    forall|i: int, j: int|
        0 <= i < j < outputs.len() ==> (#[trigger] outputs[i]).global != (
        #[trigger] outputs[j]).global
}

/// Whether an output was announced under a number.
pub open spec fn has_output(outputs: Seq<OutputView>, global: u32) -> bool {
    exists|i: int| 0 <= i < outputs.len() && (#[trigger] outputs[i]).global == global
}

/// The place of the output announced under a number.
pub open spec fn place_of(outputs: Seq<OutputView>, global: u32) -> int {
    choose|i: int| 0 <= i < outputs.len() && (#[trigger] outputs[i]).global == global
}

/// The output announced under a number.
pub open spec fn output_of(outputs: Seq<OutputView>, global: u32) -> OutputView {
    outputs[place_of(outputs, global)]
}

/// An output of which only the number is known.
pub open spec fn new_output(global: u32) -> OutputView {
    OutputView {
        global,
        name: "output-"@ + decimal_text(global as nat),
        width: 0,
        height: 0,
        scale: 1,
        has_surface: false,
        configured: false,
    }
}

/// The outputs after one is announced: in the place of the one that had its
/// number, else at the end.
pub open spec fn with_output(outputs: Seq<OutputView>, output: OutputView) -> Seq<OutputView> {
    if has_output(outputs, output.global) {
        outputs.update(place_of(outputs, output.global), output)
    } else {
        outputs.push(output)
    }
}

/// The outputs after the one with a number is gone.
pub open spec fn without_output(outputs: Seq<OutputView>, global: u32) -> Seq<OutputView> {
    if has_output(outputs, global) {
        outputs.remove(place_of(outputs, global))
    } else {
        outputs
    }
}

/// The outputs after the one with a number, if there is one, has become
/// `changed`.
pub open spec fn with_changed(
    outputs: Seq<OutputView>,
    global: u32,
    changed: OutputView,
) -> Seq<OutputView> {
    if has_output(outputs, global) {
        outputs.update(place_of(outputs, global), changed)
    } else {
        outputs
    }
}

/// Whether a surface is to be made for an output: it is known and has none,
/// and the compositor can make one.
pub open spec fn lacks_surface(outputs: Seq<OutputView>, global: u32, can_create: bool) -> bool {
    can_create && has_output(outputs, global) && !output_of(outputs, global).has_surface
}

/// The outputs after a surface was made for one that lacks it.
pub open spec fn with_surface(outputs: Seq<OutputView>, global: u32, can_create: bool) -> Seq<
    OutputView,
> {
    if lacks_surface(outputs, global, can_create) {
        with_changed(
            outputs,
            global,
            OutputView { has_surface: true, ..output_of(outputs, global) },
        )
    } else {
        outputs
    }
}

/// The numbers of the outputs in their order.
pub open spec fn globals_of(outputs: Seq<OutputView>) -> Seq<u32> {
    outputs.map_values(|output: OutputView| output.global)
}

impl View for Outputs {
    type V = Seq<OutputView>;

    closed spec fn view(&self) -> Seq<OutputView> {
        self.list@.map_values(|output: OutputState| output@)
    }
}

proof fn lemma_place_is_unique(outputs: Seq<OutputView>, at: int)
    requires
        distinct_globals(outputs),
        0 <= at < outputs.len(),
    ensures
        has_output(outputs, outputs[at].global),
        place_of(outputs, outputs[at].global) == at,
{
    assert(outputs[at].global == outputs[at].global);
}

/// An output that was not known and goes again leaves the others as they were.
pub proof fn lemma_unplugging_undoes_plugging(outputs: Seq<OutputView>, global: u32)
    requires
        distinct_globals(outputs),
        !has_output(outputs, global),
    ensures
        without_output(with_output(outputs, new_output(global)), global) == outputs,
{
    let more = outputs.push(new_output(global));
    assert forall|i: int, j: int| 0 <= i < j < more.len() implies (#[trigger] more[i]).global != (
    #[trigger] more[j]).global by {
        assert(outputs[i].global != global);
    }
    lemma_place_is_unique(more, outputs.len() as int);
    assert(more.remove(outputs.len() as int) =~= outputs);
}

/// An output that is announced is known, with nothing but its number, whether
/// it was known before or not.
pub proof fn lemma_plugged_output_is_known(outputs: Seq<OutputView>, global: u32)
    requires
        distinct_globals(outputs),
    ensures
        distinct_globals(with_output(outputs, new_output(global))),
        has_output(with_output(outputs, new_output(global)), global),
        output_of(with_output(outputs, new_output(global)), global) == new_output(global),
{
    let more = with_output(outputs, new_output(global));
    let at = if has_output(outputs, global) {
        place_of(outputs, global)
    } else {
        outputs.len() as int
    };
    assert forall|i: int, j: int| 0 <= i < j < more.len() implies (#[trigger] more[i]).global != (
    #[trigger] more[j]).global by {
        if j < outputs.len() {
            assert(outputs[i].global != outputs[j].global);
        } else {
            assert(outputs[i].global != global);
        }
    }
    assert(more[at] == new_output(global));
    lemma_place_is_unique(more, at);
}

/// What is told of one output leaves the others alone.
pub proof fn lemma_change_leaves_the_others(
    outputs: Seq<OutputView>,
    global: u32,
    changed: OutputView,
    other: u32,
)
    requires
        distinct_globals(outputs),
        changed.global == global,
        other != global,
        has_output(outputs, other),
    ensures
        has_output(with_changed(outputs, global, changed), other),
        output_of(with_changed(outputs, global, changed), other) == output_of(outputs, other),
{
    let after = with_changed(outputs, global, changed);
    let at = place_of(outputs, other);
    assert forall|i: int, j: int| 0 <= i < j < after.len() implies (#[trigger] after[i]).global != (
    #[trigger] after[j]).global by {
        assert(outputs[i].global != outputs[j].global);
    }
    assert(after[at] == outputs[at]);
    lemma_place_is_unique(after, at);
}

/// A surface is made once: where one was just made, or could not be, nothing
/// more is asked, and asking again changes nothing.
pub proof fn lemma_surface_is_made_once(outputs: Seq<OutputView>, global: u32, can_create: bool)
    requires
        distinct_globals(outputs),
    ensures
        !lacks_surface(with_surface(outputs, global, can_create), global, can_create),
        with_surface(with_surface(outputs, global, can_create), global, can_create)
            == with_surface(outputs, global, can_create),
{
    if lacks_surface(outputs, global, can_create) {
        let at = place_of(outputs, global);
        let after = with_surface(outputs, global, can_create);
        assert forall|i: int, j: int| 0 <= i < j < after.len() implies (
        #[trigger] after[i]).global != (#[trigger] after[j]).global by {
            assert(outputs[i].global != outputs[j].global);
        }
        assert(after[at].global == global);
        lemma_place_is_unique(after, at);
    }
}

/// An output stands under its own number, and under no other; a number that no
/// output has is not known.
pub proof fn lemma_output_is_found_by_its_number(outputs: Seq<OutputView>, at: int, global: u32)
    requires
        distinct_globals(outputs),
    ensures
        0 <= at < outputs.len() ==> has_output(outputs, outputs[at].global) && output_of(
            outputs,
            outputs[at].global,
        ) == outputs[at],
        has_output(outputs, global) ==> output_of(outputs, global).global == global
            && outputs.contains(output_of(outputs, global)),
        (forall|i: int| 0 <= i < outputs.len() ==> (#[trigger] outputs[i]).global != global)
            ==> !has_output(outputs, global),
{
    if 0 <= at < outputs.len() {
        lemma_place_is_unique(outputs, at);
    }
}

/// An output that is announced again, changed or forgotten keeps or leaves its
/// place, and every other output keeps its own.
pub proof fn lemma_known_output_keeps_its_place(
    outputs: Seq<OutputView>,
    at: int,
    output: OutputView,
)
    requires
        distinct_globals(outputs),
        0 <= at < outputs.len(),
        outputs[at].global == output.global,
    ensures
        with_output(outputs, output) == outputs.update(at, output),
        with_changed(outputs, output.global, output) == outputs.update(at, output),
        without_output(outputs, output.global) == outputs.take(at) + outputs.skip(at + 1),
{
    lemma_place_is_unique(outputs, at);
    assert(outputs.remove(at) =~= outputs.take(at) + outputs.skip(at + 1));
}

/// An output whose number is not known comes last when it is announced; what is
/// told of it otherwise changes nothing.
pub proof fn lemma_unknown_output_comes_last(outputs: Seq<OutputView>, output: OutputView)
    requires
        forall|i: int| 0 <= i < outputs.len() ==> (#[trigger] outputs[i]).global != output.global,
    ensures
        with_output(outputs, output) == outputs.push(output),
        with_changed(outputs, output.global, output) == outputs,
        without_output(outputs, output.global) == outputs,
{
}

/// A new output is named after its number, has no size and no surface, and
/// counts its pixels one for one.
pub proof fn lemma_new_output_is_blank(global: u32)
    ensures
        new_output(global).global == global,
        new_output(global).name == seq!['o', 'u', 't', 'p', 'u', 't', '-'] + decimal_text(
            global as nat,
        ),
        new_output(global).width == 0,
        new_output(global).height == 0,
        new_output(global).scale == 1,
        !new_output(global).has_surface,
        !new_output(global).configured,
{
    reveal_strlit("output-");
    assert("output-"@ =~= seq!['o', 'u', 't', 'p', 'u', 't', '-']);
}

/// A surface is made for a known output without one, where surfaces can be
/// made; the output then has one, and is otherwise as it was, as are all
/// others. In every other case nothing changes.
pub proof fn lemma_surface_goes_to_its_output(
    outputs: Seq<OutputView>,
    at: int,
    can_create: bool,
    unknown: u32,
)
    requires
        distinct_globals(outputs),
        0 <= at < outputs.len(),
        forall|i: int| 0 <= i < outputs.len() ==> (#[trigger] outputs[i]).global != unknown,
    ensures
        lacks_surface(outputs, outputs[at].global, can_create) <==> can_create
            && !outputs[at].has_surface,
        can_create && !outputs[at].has_surface ==> with_surface(
            outputs,
            outputs[at].global,
            can_create,
        ) == outputs.update(at, OutputView { has_surface: true, ..outputs[at] }),
        !can_create || outputs[at].has_surface ==> with_surface(
            outputs,
            outputs[at].global,
            can_create,
        ) == outputs,
        !lacks_surface(outputs, unknown, can_create),
        with_surface(outputs, unknown, can_create) == outputs,
{
    lemma_place_is_unique(outputs, at);
}

/// The numbers of the outputs are listed in the outputs' order.
pub proof fn lemma_numbers_stand_in_order(outputs: Seq<OutputView>)
    ensures
        globals_of(outputs).len() == outputs.len(),
        forall|i: int|
            0 <= i < outputs.len() ==> #[trigger] globals_of(outputs)[i] == outputs[i].global,
{
}

/// What is seen of an output is what it holds.
pub proof fn lemma_output_is_seen_as_it_is(output: OutputState)
    ensures
        output@.global == output.global,
        output@.name == output.name@,
        output@.width == output.width,
        output@.height == output.height,
        output@.scale == output.scale,
        output@.has_surface == output.has_surface,
        output@.configured == output.configured,
{
}

impl Outputs {
    #[verifier::type_invariant]
    spec fn valid(self) -> bool {
        distinct_globals(self@)
    }

    /// No outputs.
    pub fn new() -> (outputs: Outputs)
        ensures
            outputs@ == Seq::<OutputView>::empty(),
    {
        let outputs = Outputs { list: Vec::new() };
        assert(outputs@ =~= Seq::<OutputView>::empty());
        outputs
    }

    /// The number of outputs.
    pub fn len(&self) -> (len: usize)
        ensures
            len == self@.len(),
            distinct_globals(self@),
    {
        proof {
            use_type_invariant(self);
        }
        self.list.len()
    }

    /// The output at a place.
    pub fn at(&self, i: usize) -> (output: &OutputState)
        requires
            i < self@.len(),
        ensures
            output@ == self@[i as int],
    {
        &self.list[i]
    }

    /// The place of the output announced under a number.
    pub fn find(&self, global: u32) -> (at: Option<usize>)
        ensures
            at is Some <==> has_output(self@, global),
            at matches Some(i) ==> i < self@.len() && i == place_of(self@, global)
                && self@[i as int].global == global,
            distinct_globals(self@),
    {
        proof {
            use_type_invariant(self);
        }
        let mut i: usize = 0;
        while i < self.list.len()
            invariant
                i <= self@.len(),
                distinct_globals(self@),
                forall|j: int| 0 <= j < i ==> (#[trigger] self@[j]).global != global,
            decreases self@.len() - i,
        {
            if self.list[i].global == global {
                assert(self@[i as int].global == global);
                proof {
                    lemma_place_is_unique(self@, i as int);
                }
                return Some(i);
            }
            i = i + 1;
        }
        None
    }

    fn replace(&mut self, at: usize, output: OutputState)
        requires
            at < old(self)@.len(),
            old(self)@[at as int].global == output.global,
        ensures
            final(self)@ == old(self)@.update(at as int, output@),
    {
        proof {
            use_type_invariant(&*self);
        }
        let ghost before = self@;
        let ghost shown = output@;
        let mut list: Vec<OutputState> = Vec::new();
        std::mem::swap(&mut list, &mut self.list);
        list.set(at, output);
        let ghost after = list@.map_values(|output: OutputState| output@);
        assert(after =~= before.update(at as int, shown));
        assert(distinct_globals(after)) by {
            assert forall|i: int, j: int| 0 <= i < j < after.len() implies (#[trigger] after[i]).global
                != (#[trigger] after[j]).global by {
                assert(before[i].global != before[j].global);
            }
        }
        *self = Outputs { list };
    }

    /// Announces an output of which only the number is known.
    pub fn add(&mut self, global: u32)
        ensures
            final(self)@ == with_output(old(self)@, new_output(global)),
    {
        let output = OutputState {
            global,
            name: "output-".to_owned().concat(decimal(global as u64).as_str()),
            width: 0,
            height: 0,
            scale: 1,
            has_surface: false,
            configured: false,
        };
        match self.find(global) {
            Some(at) => {
                self.replace(at, output);
            },
            None => {
                let ghost before = self@;
                let ghost shown = output@;
                let mut list: Vec<OutputState> = Vec::new();
                std::mem::swap(&mut list, &mut self.list);
                list.push(output);
                let ghost after = list@.map_values(|output: OutputState| output@);
                assert(after =~= before.push(shown));
                assert forall|i: int| 0 <= i < before.len() implies (#[trigger] before[i]).global
                    != global by {}
                *self = Outputs { list };
            },
        }
    }

    /// Forgets an output, and gives back what was known of it.
    pub fn remove(&mut self, global: u32) -> (gone: Option<OutputState>)
        ensures
            final(self)@ == without_output(old(self)@, global),
            gone is Some <==> has_output(old(self)@, global),
            gone matches Some(output) ==> output@ == output_of(old(self)@, global),
    {
        match self.find(global) {
            Some(at) => {
                let ghost before = self@;
                let mut list: Vec<OutputState> = Vec::new();
                std::mem::swap(&mut list, &mut self.list);
                let gone = list.remove(at);
                let ghost after = list@.map_values(|output: OutputState| output@);
                assert(after =~= before.remove(at as int));
                assert(distinct_globals(after)) by {
                    assert forall|i: int, j: int| 0 <= i < j < after.len() implies (
                    #[trigger] after[i]).global != (#[trigger] after[j]).global by {
                        let oi = if i < at {
                            i
                        } else {
                            i + 1
                        };
                        let oj = if j < at {
                            j
                        } else {
                            j + 1
                        };
                        assert(before[oi].global != before[oj].global);
                    }
                }
                *self = Outputs { list };
                Some(gone)
            },
            None => None,
        }
    }

    fn copy_at(&self, at: usize) -> (output: OutputState)
        requires
            at < self@.len(),
        ensures
            output@ == self@[at as int],
    {
        let output = &self.list[at];
        OutputState {
            global: output.global,
            name: output.name.clone(),
            width: output.width,
            height: output.height,
            scale: output.scale,
            has_surface: output.has_surface,
            configured: output.configured,
        }
    }

    /// The compositor told an output's video mode.
    pub fn set_mode(&mut self, global: u32, width: i32, height: i32)
        ensures
            final(self)@ == with_changed(
                old(self)@,
                global,
                (OutputView {
                    width: width as u32,
                    height: height as u32,
                    ..output_of(old(self)@, global)
                }),
            ),
    {
        if let Some(at) = self.find(global) {
            let mut output = self.copy_at(at);
            output.width = width as u32;
            output.height = height as u32;
            self.replace(at, output);
        }
    }

    /// The compositor told an output's name.
    pub fn set_name(&mut self, global: u32, name: String)
        ensures
            final(self)@ == with_changed(
                old(self)@,
                global,
                (OutputView { name: name@, ..output_of(old(self)@, global) }),
            ),
    {
        if let Some(at) = self.find(global) {
            let mut output = self.copy_at(at);
            output.name = name;
            self.replace(at, output);
        }
    }

    /// The compositor told an output's scale factor.
    pub fn set_scale(&mut self, global: u32, factor: i32)
        ensures
            final(self)@ == with_changed(
                old(self)@,
                global,
                (OutputView { scale: at_least_one(factor), ..output_of(old(self)@, global) }),
            ),
    {
        if let Some(at) = self.find(global) {
            let mut output = self.copy_at(at);
            output.scale = if factor < 1 {
                1
            } else {
                factor
            };
            self.replace(at, output);
        }
    }

    /// The compositor gave an output's surface its size.
    pub fn configure(&mut self, global: u32, width: u32, height: u32)
        ensures
            final(self)@ == with_changed(
                old(self)@,
                global,
                (OutputView { width, height, configured: true, ..output_of(old(self)@, global) }),
            ),
    {
        if let Some(at) = self.find(global) {
            let mut output = self.copy_at(at);
            output.width = width;
            output.height = height;
            output.configured = true;
            self.replace(at, output);
        }
    }

    /// What is asked of the compositor so that an output has a surface: nothing
    /// where there is one, the output is not known, or the compositor cannot
    /// make one. What is asked for counts as made.
    pub fn ensure_surface(&mut self, global: u32, can_create: bool) -> (asked: Option<
        SurfaceSettings,
    >)
        ensures
            asked is Some <==> lacks_surface(old(self)@, global, can_create),
            asked matches Some(settings) ==> settings@ == wallpaper_settings(),
            final(self)@ == with_surface(old(self)@, global, can_create),
    {
        if !can_create {
            return None;
        }
        match self.find(global) {
            Some(at) => {
                let mut output = self.copy_at(at);
                if output.has_surface {
                    return None;
                }
                output.has_surface = true;
                self.replace(at, output);
                Some(wallpaper_surface())
            },
            None => None,
        }
    }

    /// The numbers of the outputs in their order.
    pub fn globals(&self) -> (list: Vec<u32>)
        ensures
            list@ == globals_of(self@),
    {
        let mut list: Vec<u32> = Vec::new();
        let mut i: usize = 0;
        while i < self.list.len()
            invariant
                i <= self@.len(),
                list@ == globals_of(self@).take(i as int),
            decreases self@.len() - i,
        {
            list.push(self.list[i].global);
            i = i + 1;
            assert(list@ =~= globals_of(self@).take(i as int));
        }
        assert(list@ =~= globals_of(self@));
        list
    }
}

} // verus!
