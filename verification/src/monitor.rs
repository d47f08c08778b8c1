//! Monitors and where they stand.
use vstd::prelude::*;

verus! {

/// A screen: its name and its rectangle.
#[derive(Debug, Clone, PartialEq, Eq)]
pub struct Monitor {
    pub name: String,
    pub x: i32,
    pub y: i32,
    pub width: u32,
    pub height: u32,
}

/// One monitor or more.
#[derive(Debug, PartialEq, Eq)]
pub struct Monitors(Vec<Monitor>);

impl View for Monitors {
    type V = Seq<Monitor>;

    closed spec fn view(&self) -> Seq<Monitor> {
        self.0@
    }
}

impl Monitors {
    #[verifier::type_invariant]
    spec fn not_empty(&self) -> bool {
        self.0@.len() > 0
    }

    /// The monitors of `v`; `None` where it has none.
    pub fn try_new(v: Vec<Monitor>) -> (r: Option<Self>)
        ensures
            match r {
                Some(m) => v@.len() > 0 && m@ == v@,
                None => v@.len() == 0,
            },
    {
        if v.len() == 0 {
            None
        } else {
            Some(Monitors(v))
        }
    }

    pub fn single(m: Monitor) -> (r: Self)
        ensures
            r@ == seq![m],
    {
        let mut v: Vec<Monitor> = Vec::new();
        v.push(m);
        let r = Monitors(v);
        assert(r@ =~= seq![m]);
        r
    }

    pub fn first(&self) -> (r: &Monitor)
        ensures
            self@.len() > 0,
            *r == self@[0],
    {
        proof {
            use_type_invariant(self);
        }
        &self.0[0]
    }

    pub fn as_slice(&self) -> (r: &[Monitor])
        ensures
            r@ == self@,
            r@.len() > 0,
    {
        proof {
            use_type_invariant(self);
        }
        self.0.as_slice()
    }
}

/// `a` and `b` have the same name and rectangle.
pub open spec fn same_monitor(a: Monitor, b: Monitor) -> bool {
    a.name@ == b.name@ && a.x == b.x && a.y == b.y && a.width == b.width && a.height == b.height
}

impl Clone for Monitors {
    fn clone(&self) -> (r: Self)
        ensures
            r@.len() == self@.len(),
            forall|i: int| 0 <= i < self@.len() ==> same_monitor(#[trigger] r@[i], self@[i]),
    {
        proof {
            use_type_invariant(self);
        }
        let mut v: Vec<Monitor> = Vec::new();
        let mut i: usize = 0;
        while i < self.0.len()
            invariant
                i == v.len() <= self.0.len(),
                forall|j: int| 0 <= j < i ==> same_monitor(#[trigger] v@[j], self.0@[j]),
            decreases self.0.len() - i,
        {
            let m = &self.0[i];
            v.push(
                Monitor { name: m.name.clone(), x: m.x, y: m.y, width: m.width, height: m.height },
            );
            i += 1;
        }
        Monitors(v)
    }
}

/// An output as the display server reports it. A part that could not be read is `None`.
#[derive(Debug)]
pub struct OutputReport {
    pub name: String,
    pub crtc: u32,
    pub connected: bool,
    pub area: Option<CrtcArea>,
}

/// The rectangle that a CRTC scans out.
#[derive(Debug, Clone, Copy, PartialEq, Eq, Structural)]
pub struct CrtcArea {
    pub x: i16,
    pub y: i16,
    pub width: u16,
    pub height: u16,
}

/// The monitor that a report describes, if it drives one.
pub open spec fn driven(o: OutputReport) -> bool {
    o.crtc != 0 && o.connected && o.area is Some
}

/// `m` is the monitor of `o`.
pub open spec fn is_monitor_of(m: Monitor, o: OutputReport) -> bool {
    &&& m.name@ == o.name@
    &&& o.area matches Some(a) ==> m.x == a.x && m.y == a.y && m.width == a.width && m.height
        == a.height
}

/// The driven outputs, in their order.
pub open spec fn driven_outputs(s: Seq<Option<OutputReport>>) -> Seq<OutputReport>
    decreases s.len(),
{
    if s.len() == 0 {
        Seq::empty()
    } else {
        match s.last() {
            Some(o) => if driven(o) {
                driven_outputs(s.drop_last()).push(o)
            } else {
                driven_outputs(s.drop_last())
            },
            None => driven_outputs(s.drop_last()),
        }
    }
}

/// The monitors are those of the outputs, one for one.
pub open spec fn monitors_of(ms: Seq<Monitor>, os: Seq<OutputReport>) -> bool {
    &&& ms.len() == os.len()
    &&& forall|i: int| 0 <= i < os.len() ==> is_monitor_of(#[trigger] ms[i], os[i])
}

fn monitors_from(outputs: &Vec<Option<OutputReport>>) -> (r: Vec<Monitor>)
    ensures
        monitors_of(r@, driven_outputs(outputs@)),
{
    let mut out: Vec<Monitor> = Vec::new();
    let mut i: usize = 0;
    assert(outputs@.take(0) =~= Seq::empty());
    while i < outputs.len()
        invariant
            i <= outputs.len(),
            monitors_of(out@, driven_outputs(outputs@.take(i as int))),
        decreases outputs.len() - i,
    {
        proof {
            assert(outputs@.take(i + 1).drop_last() =~= outputs@.take(i as int));
            assert(outputs@.take(i + 1).last() == outputs@[i as int]);
        }
        if let Some(o) = &outputs[i] {
            if o.crtc != 0 && o.connected {
                if let Some(a) = o.area {
                    out.push(
                        Monitor {
                            name: o.name.clone(),
                            x: a.x as i32,
                            y: a.y as i32,
                            width: a.width as u32,
                            height: a.height as u32,
                        },
                    );
                }
            }
        }
        i += 1;
    }
    assert(outputs@.take(i as int) =~= outputs@);
    out
}

/// The monitors of the outputs that the server reported; one that could not be read is `None`.
/// Where the server reported nothing, or no output drives a screen, the whole screen is one
/// monitor.
pub fn query(
    outputs: Option<Vec<Option<OutputReport>>>,
    screen_width: u16,
    screen_height: u16,
) -> (r: Monitors)
    ensures
        ({
            let found = match outputs {
                Some(v) => driven_outputs(v@),
                None => Seq::empty(),
            };
            if found.len() > 0 {
                monitors_of(r@, found)
            } else {
                &&& r@.len() == 1
                &&& r@[0].name@ == "default"@
                &&& r@[0].x == 0
                &&& r@[0].y == 0
                &&& r@[0].width == screen_width
                &&& r@[0].height == screen_height
            }
        }),
{
    if let Some(v) = outputs {
        if let Some(m) = Monitors::try_new(monitors_from(&v)) {
            return m;
        }
    }
    Monitors::single(
        Monitor {
            name: "default".to_string(),
            x: 0,
            y: 0,
            width: screen_width as u32,
            height: screen_height as u32,
        },
    )
}

/// A monitor is there for every output that is connected and drives an area, in the order of the
/// outputs, and for no other: one more output adds its monitor at the end, or nothing.
pub proof fn law_driven_outputs_are_kept_in_order(
    s: Seq<Option<OutputReport>>,
    o: Option<OutputReport>,
)
    ensures
        match o {
            Some(r) => if r.crtc != 0 && r.connected && r.area is Some {
                driven_outputs(s.push(o)) == driven_outputs(s).push(r)
            } else {
                driven_outputs(s.push(o)) == driven_outputs(s)
            },
            None => driven_outputs(s.push(o)) == driven_outputs(s),
        },
        driven_outputs(Seq::empty()).len() == 0,
        forall|i: int|
            0 <= i < driven_outputs(s).len() ==> (#[trigger] driven_outputs(s)[i]).connected
                && driven_outputs(s)[i].crtc != 0 && driven_outputs(s)[i].area is Some,
    decreases s.len(),
{
    assert(s.push(o).drop_last() =~= s);
    if s.len() > 0 {
        law_driven_outputs_are_kept_in_order(s.drop_last(), o);
        let t = driven_outputs(s.drop_last());
        let all = driven_outputs(s);
        assert forall|i: int| 0 <= i < all.len() implies (#[trigger] all[i]).connected && all[i].crtc
            != 0 && all[i].area is Some by {
            if i < t.len() {
                assert(all[i] == t[i]);
            }
        }
    }
}

/// Every output that is driven is among them.
pub proof fn law_no_driven_output_is_lost(s: Seq<Option<OutputReport>>, i: int)
    requires
        0 <= i < s.len(),
        s[i] matches Some(o) && o.crtc != 0 && o.connected && o.area is Some,
    ensures
        driven_outputs(s).contains(s[i]->0),
    decreases s.len(),
{
    let all = driven_outputs(s);
    if i == s.len() - 1 {
        assert(all[all.len() - 1] == s[i]->0);
    } else {
        let front = s.drop_last();
        assert(front[i] == s[i]);
        law_no_driven_output_is_lost(front, i);
        let k = driven_outputs(front).index_of(s[i]->0);
        assert(all[k] == s[i]->0);
    }
}

} // verus!
