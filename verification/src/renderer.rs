use vstd::prelude::*;

verus! {

/// Four scalars that belong together: a rectangle as corner and size, a
/// colour, or the radii of the four corners.
#[derive(Clone, Copy, Debug, PartialEq)]
pub struct Quad<S>(pub S, pub S, pub S, pub S);

/// Width and height of the frame in pixels.
#[derive(Clone, Copy, Debug, PartialEq, Eq, Structural)]
pub struct FrameSize(pub u32, pub u32);

/// One rectangle to draw, as the shading stage reads it. Every value is a
/// copy of what the pen held when the rectangle was emitted.
#[derive(Clone, Copy, Debug, PartialEq)]
pub struct DrawItem<S> {
    /// Corner and size of the rectangle, in units of the frame.
    pub offset_scale: Quad<S>,
    /// The flat colour of the rectangle.
    pub texture_transform: Quad<S>,
    /// Corner and size of the region outside which nothing is drawn.
    pub mask: Quad<S>,
    /// Corner radii: top left, top right, bottom right, bottom left.
    pub border_radius: Quad<S>,
    /// Corner radii of the mask, in the same order.
    pub border_radius_mask: Quad<S>,
    /// The depth by which rectangles are ordered, and three spare values.
    pub data0: Quad<S>,
    /// The kind of item and the texture layer, and two spare values.
    pub meta0: Quad<S>,
}

/// The sticky drawing state that the setters change and that every emitted
/// rectangle takes a copy of.
#[derive(Clone, Copy, Debug, PartialEq)]
pub struct PenState<S> {
    pub depth: S,
    pub texture: Option<Quad<S>>,
    pub color: Quad<S>,
    pub mask: Quad<S>,
    pub border_radius: Quad<S>,
    pub border_radius_mask: Quad<S>,
    pub frame_res: FrameSize,
}

impl<S: Copy> PenState<S> {
    /// The pen at the start of a frame: opaque black, the whole frame as
    /// mask, depth zero, square corners, a frame of 800 by 600.
    pub open spec fn initial(zero: S, one: S) -> PenState<S> {
        PenState {
            depth: zero,
            texture: None,
            color: Quad(zero, zero, zero, one),
            mask: Quad(zero, zero, one, one),
            border_radius: Quad(zero, zero, zero, zero),
            border_radius_mask: Quad(zero, zero, zero, zero),
            frame_res: FrameSize(800, 600),
        }
    }

    /// The rectangle that a pen in this state emits for corner `(x, y)` and
    /// size `(w, h)`: a flat rectangle in the pen's colour.
    pub open spec fn stamp(self, zero: S, x: S, y: S, w: S, h: S) -> DrawItem<S> {
        DrawItem {
            offset_scale: Quad(x, y, w, h),
            texture_transform: self.color,
            mask: self.mask,
            border_radius: self.border_radius,
            border_radius_mask: self.border_radius_mask,
            data0: Quad(self.depth, zero, zero, zero),
            meta0: Quad(zero, zero, zero, zero),
        }
    }
}

/// Why a frame could not be ended.
#[derive(Clone, Copy, Debug, PartialEq, Eq, Structural)]
pub enum RenderError {
    /// No target image was set for the frame.
    NoTargetView,
    /// The frame holds more rectangles than the item buffer has room for.
    TooManyItems,
}

impl RenderError {
    /// The error in words.
    pub fn message(&self) -> (text: String)
        ensures
            *self == RenderError::NoTargetView ==> text@ == "No target view!"@,
            *self == RenderError::TooManyItems ==> text@ == "Too many items!"@,
    {
        match self {
            RenderError::NoTargetView => "No target view!".to_owned(),
            RenderError::TooManyItems => "Too many items!".to_owned(),
        }
    }
}

/// What is to be done with the device to end a frame: the rectangles to
/// upload, in the order in which they were emitted, and the one draw call
/// that renders them.
#[derive(Debug)]
pub struct FramePlan<S> {
    /// The rectangles that go to the item buffer, from its start.
    pub items: Vec<DrawItem<S>>,
    /// Number of vertices of the draw call: the two triangles of a quad.
    pub vertex_count: u32,
    /// Number of instances of the draw call: one for each rectangle.
    pub instance_count: u32,
}

/// The recorder of a frame: between `begin` and `end` it collects the
/// rectangles to draw, each with a copy of the pen as it was.
///
/// `S` is the scalar in which coordinates and colours are given; the
/// recorder copies such values and never computes with them. `V` is the
/// image that the frame is rendered to.
pub struct Renderer<S, V> {
    items: Vec<DrawItem<S>>,
    frame_config: PenState<S>,
    target_view: Option<V>,
    open: bool,
    zero: S,
    one: S,
}

/// The number of rectangles that the item buffer has room for.
pub const MAX_ITEMS: usize = 65536;

impl<S: Copy, V> Renderer<S, V> {
    /// The rectangles emitted in this frame so far, oldest first.
    pub closed spec fn items(&self) -> Seq<DrawItem<S>> {
        self.items@
    }

    /// The pen as it is now.
    pub closed spec fn pen(&self) -> PenState<S> {
        self.frame_config
    }

    /// The image that the frame is rendered to, if one is set.
    pub closed spec fn target(&self) -> Option<V> {
        self.target_view
    }

    /// A frame is open: `begin` was called and the frame was not ended.
    pub closed spec fn is_open(&self) -> bool {
        self.open
    }

    /// The scalar that stands for nought.
    pub closed spec fn zero(&self) -> S {
        self.zero
    }

    /// The scalar that stands for one.
    pub closed spec fn one(&self) -> S {
        self.one
    }

    /// Makes a recorder with no frame open. `zero` and `one` are the scalars
    /// that stand for nought and for one.
    pub fn new(zero: S, one: S) -> (made: Result<Self, String>)
        ensures
            made is Ok,
            !made->Ok_0.is_open(),
            made->Ok_0.items() == Seq::<DrawItem<S>>::empty(),
            made->Ok_0.pen() == PenState::initial(zero, one),
            made->Ok_0.target() is None,
            made->Ok_0.zero() == zero,
            made->Ok_0.one() == one,
    {
        Ok(
            Renderer {
                items: Vec::new(),
                frame_config: Self::initial_pen(zero, one),
                target_view: None,
                open: false,
                zero,
                one,
            },
        )
    }

    fn initial_pen(zero: S, one: S) -> (pen: PenState<S>)
        ensures
            pen == PenState::initial(zero, one),
    {
        PenState {
            depth: zero,
            texture: None,
            color: Quad(zero, zero, zero, one),
            mask: Quad(zero, zero, one, one),
            border_radius: Quad(zero, zero, zero, zero),
            border_radius_mask: Quad(zero, zero, zero, zero),
            frame_res: FrameSize(800, 600),
        }
    }

    /// Opens a frame: the rectangles of an earlier frame are dropped, the
    /// pen is as at the start, and no target is set.
    pub fn begin(&mut self) -> (done: Result<(), String>)
        ensures
            done is Ok,
            final(self).is_open(),
            final(self).items() == Seq::<DrawItem<S>>::empty(),
            final(self).pen() == PenState::initial(old(self).zero(), old(self).one()),
            final(self).target() is None,
            final(self).zero() == old(self).zero(),
            final(self).one() == old(self).one(),
    {
        self.items.clear();
        self.frame_config = Self::initial_pen(self.zero, self.one);
        self.target_view = None;
        self.open = true;
        Ok(())
    }

    /// Whether a frame is open.
    pub fn frame_open(&self) -> (open: bool)
        ensures
            open == self.is_open(),
    {
        self.open
    }

    /// Number of rectangles emitted in this frame so far.
    pub fn item_count(&self) -> (count: usize)
        ensures
            count == self.items().len(),
    {
        self.items.len()
    }

    /// The pen as it is now.
    pub fn frame_config(&self) -> (pen: PenState<S>)
        ensures
            pen == self.pen(),
    {
        self.frame_config
    }

    /// The image that the frame is rendered to, if one is set.
    pub fn target_view(&self) -> (view: Option<&V>)
        ensures
            view is Some <==> self.target() is Some,
            view matches Some(v) ==> self.target() == Some(*v),
    {
        self.target_view.as_ref()
    }

    /// Sets the image that the frame is rendered to.
    pub fn set_target_view(&mut self, view: V)
        requires
            old(self).is_open(),
        ensures
            final(self).target() == Some(view),
            final(self).is_open(),
            final(self).items() == old(self).items(),
            final(self).pen() == old(self).pen(),
            final(self).zero() == old(self).zero(),
            final(self).one() == old(self).one(),
    {
        self.target_view = Some(view);
    }

    /// Sets the size of the frame in pixels.
    pub fn set_frame_res(&mut self, frame_res: (u32, u32))
        requires
            old(self).is_open(),
        ensures
            final(self).pen() == (PenState {
                frame_res: FrameSize(frame_res.0, frame_res.1),
                ..old(self).pen()
            }),
            final(self).is_open(),
            final(self).items() == old(self).items(),
            final(self).target() == old(self).target(),
            final(self).zero() == old(self).zero(),
            final(self).one() == old(self).one(),
    {
        self.frame_config.frame_res = FrameSize(frame_res.0, frame_res.1);
    }

    /// Sets the colour of the rectangles to come, and drops a texture that
    /// the pen held.
    pub fn set_color(&mut self, color_r: S, color_g: S, color_b: S, color_a: S)
        requires
            old(self).is_open(),
        ensures
            final(self).pen() == (PenState {
                color: Quad(color_r, color_g, color_b, color_a),
                texture: None,
                ..old(self).pen()
            }),
            final(self).is_open(),
            final(self).items() == old(self).items(),
            final(self).target() == old(self).target(),
            final(self).zero() == old(self).zero(),
            final(self).one() == old(self).one(),
    {
        self.frame_config.color = Quad(color_r, color_g, color_b, color_a);
        self.frame_config.texture = None;
    }

    /// Sets the depth of the rectangles to come.
    pub fn set_depth(&mut self, depth: S)
        requires
            old(self).is_open(),
        ensures
            final(self).pen() == (PenState { depth, ..old(self).pen() }),
            final(self).is_open(),
            final(self).items() == old(self).items(),
            final(self).target() == old(self).target(),
            final(self).zero() == old(self).zero(),
            final(self).one() == old(self).one(),
    {
        self.frame_config.depth = depth;
    }

    /// Sets the region outside which the rectangles to come are not drawn,
    /// in units of the frame.
    pub fn set_mask(&mut self, mask_x: S, mask_y: S, mask_w: S, mask_h: S)
        requires
            old(self).is_open(),
        ensures
            final(self).pen() == (PenState {
                mask: Quad(mask_x, mask_y, mask_w, mask_h),
                ..old(self).pen()
            }),
            final(self).is_open(),
            final(self).items() == old(self).items(),
            final(self).target() == old(self).target(),
            final(self).zero() == old(self).zero(),
            final(self).one() == old(self).one(),
    {
        self.frame_config.mask = Quad(mask_x, mask_y, mask_w, mask_h);
    }

    /// Sets the corner radii of the mask of the rectangles to come.
    pub fn set_mask_border_radius(&mut self, top_left: S, top_right: S, bottom_right: S, bottom_left: S)
        requires
            old(self).is_open(),
        ensures
            final(self).pen() == (PenState {
                border_radius_mask: Quad(top_left, top_right, bottom_right, bottom_left),
                ..old(self).pen()
            }),
            final(self).is_open(),
            final(self).items() == old(self).items(),
            final(self).target() == old(self).target(),
            final(self).zero() == old(self).zero(),
            final(self).one() == old(self).one(),
    {
        self.frame_config.border_radius_mask = Quad(top_left, top_right, bottom_right, bottom_left);
    }

    /// Sets the corner radii of the rectangles to come.
    pub fn set_border_radius(&mut self, top_left: S, top_right: S, bottom_right: S, bottom_left: S)
        requires
            old(self).is_open(),
        ensures
            final(self).pen() == (PenState {
                border_radius: Quad(top_left, top_right, bottom_right, bottom_left),
                ..old(self).pen()
            }),
            final(self).is_open(),
            final(self).items() == old(self).items(),
            final(self).target() == old(self).target(),
            final(self).zero() == old(self).zero(),
            final(self).one() == old(self).one(),
    {
        self.frame_config.border_radius = Quad(top_left, top_right, bottom_right, bottom_left);
    }

    /// Emits a rectangle with corner `(x, y)` and size `(w, h)`, in units of
    /// the frame, with a copy of the pen as it is now. What the pen becomes
    /// later does not reach it.
    pub fn rect(&mut self, x: S, y: S, w: S, h: S)
        requires
            old(self).is_open(),
        ensures
            final(self).items() == old(self).items().push(
                old(self).pen().stamp(old(self).zero(), x, y, w, h),
            ),
            final(self).pen() == old(self).pen(),
            final(self).is_open(),
            final(self).target() == old(self).target(),
            final(self).zero() == old(self).zero(),
            final(self).one() == old(self).one(),
    {
        let zero = self.zero;
        let pen = self.frame_config;
        let mut item = DrawItem {
            offset_scale: Quad(x, y, w, h),
            texture_transform: Quad(zero, zero, zero, zero),
            mask: pen.mask,
            border_radius: pen.border_radius,
            border_radius_mask: pen.border_radius_mask,
            data0: Quad(pen.depth, zero, zero, zero),
            meta0: Quad(zero, zero, zero, zero),
        };
        item.texture_transform = pen.color;
        self.items.push(item);
    }

    /// What ending a frame with `count` rectangles comes to: an error when no
    /// target is set, else an error when the rectangles exceed the item
    /// buffer, else a draw call of one instance for each rectangle.
    pub open spec fn verdict(has_target: bool, count: nat) -> Result<u32, RenderError> {
        if !has_target {
            Err(RenderError::NoTargetView)
        } else if count > MAX_ITEMS {
            Err(RenderError::TooManyItems)
        } else {
            Ok(count as u32)
        }
    }

    /// Ends the frame. With a target set and no more rectangles than the
    /// item buffer holds, the rectangles leave the recorder in a plan for one
    /// upload and one draw call of six vertices and one instance for each
    /// rectangle. Else the frame is given up with an error: nothing is to be
    /// sent to the device, and the rectangles, the pen and the target stay as
    /// they are. Either way no frame is open afterwards.
    pub fn flush(&mut self) -> (plan: Result<FramePlan<S>, RenderError>)
        requires
            old(self).is_open(),
        ensures
            !final(self).is_open(),
            final(self).pen() == old(self).pen(),
            final(self).target() == old(self).target(),
            final(self).zero() == old(self).zero(),
            final(self).one() == old(self).one(),
            match Self::verdict(old(self).target() is Some, old(self).items().len()) {
                Ok(count) => plan matches Ok(p) && p.items@ == old(self).items() && p.vertex_count
                    == 6 && p.instance_count == count && final(self).items() == Seq::<
                    DrawItem<S>,
                >::empty(),
                Err(e) => plan == Err::<FramePlan<S>, RenderError>(e) && final(self).items() == old(
                    self,
                ).items(),
            },
    {
        self.open = false;
        if self.target_view.is_none() {
            return Err(RenderError::NoTargetView);
        }
        if self.items.len() > MAX_ITEMS {
            return Err(RenderError::TooManyItems);
        }
        let mut items: Vec<DrawItem<S>> = Vec::new();
        core::mem::swap(&mut self.items, &mut items);
        let instance_count: u32 = items.len() as u32;
        Ok(FramePlan { items, vertex_count: 6, instance_count })
    }

    /// Ends the frame, as `flush` does.
    pub fn end(&mut self) -> (plan: Result<FramePlan<S>, RenderError>)
        requires
            old(self).is_open(),
        ensures
            !final(self).is_open(),
            final(self).pen() == old(self).pen(),
            final(self).target() == old(self).target(),
            final(self).zero() == old(self).zero(),
            final(self).one() == old(self).one(),
            match Self::verdict(old(self).target() is Some, old(self).items().len()) {
                Ok(count) => plan matches Ok(p) && p.items@ == old(self).items() && p.vertex_count
                    == 6 && p.instance_count == count && final(self).items() == Seq::<
                    DrawItem<S>,
                >::empty(),
                Err(e) => plan == Err::<FramePlan<S>, RenderError>(e) && final(self).items() == old(
                    self,
                ).items(),
            },
    {
        self.flush()
    }
}

} // verus!
