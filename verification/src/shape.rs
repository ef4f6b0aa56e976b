use vstd::prelude::*;
use crate::canvas::Canvas;
use crate::view::CanvasView;
use crate::rect::{rect, rect_thick_outline};
use crate::circle::{circle_fill, circle_thick_outline};
use crate::ellipse::{ellipse_fill, ellipse_outline};
use crate::color::{Color, ToColor};

verus! {

/// Something that can draw itself on a canvas.
pub trait Draw {
    /// The canvas after the shape has been drawn on `before`.
    spec fn drawn(&self, before: CanvasView) -> CanvasView;

    /// Draws the shape.
    fn draw_to(&self, canvas: &mut Canvas)
        requires
            old(canvas).wf(),
        ensures
            final(canvas).wf(),
            final(canvas)@ == self.drawn(old(canvas)@),
    ;
}

/// `v` with `region` painted where a color is given.
pub open spec fn paint_if(v: CanvasView, region: Set<(int, int)>, color: Option<u32>) -> CanvasView {
    match color {
        Some(c) => v.paint(region, c),
        None => v,
    }
}

/// A rectangle with its top-left corner, its size and its style.
#[derive(Debug)]
pub struct Rectangle {
    pub x: i32,
    pub y: i32,
    pub width: i32,
    pub height: i32,
    pub fill_color: Option<u32>,
    pub outline_thickness: i32,
    pub outline_color: Option<u32>,
}

impl Rectangle {
    /// A rectangle filled with color 0 and without outline.
    pub fn new(x: i32, y: i32, width: i32, height: i32) -> (r: Rectangle)
        ensures
            r == (Rectangle {
                x,
                y,
                width,
                height,
                fill_color: Some(0u32),
                outline_thickness: 1,
                outline_color: None,
            }),
    {
        Rectangle {
            x,
            y,
            width,
            height,
            fill_color: Some(0),
            outline_thickness: 1,
            outline_color: None,
        }
    }

    /// The rectangle between two corners, in either order; its width and
    /// height are the distances between them, which have to fit an `i32`.
    pub fn from_points(x1: i32, y1: i32, x2: i32, y2: i32) -> (r: Rectangle)
        requires
            i32::MIN <= x1 - x2 <= i32::MAX,
            i32::MIN <= x2 - x1 <= i32::MAX,
            i32::MIN <= y1 - y2 <= i32::MAX,
            i32::MIN <= y2 - y1 <= i32::MAX,
        ensures
            r == (Rectangle {
                x: if x1 > x2 { x2 } else { x1 },
                y: if y1 > y2 { y2 } else { y1 },
                width: (if x1 > x2 { x1 - x2 } else { x2 - x1 }) as i32,
                height: (if y1 > y2 { y1 - y2 } else { y2 - y1 }) as i32,
                fill_color: Some(0u32),
                outline_thickness: 1,
                outline_color: None,
            }),
    {
        let x: i32 = if x1 > x2 { x2 } else { x1 };
        let width: i32 = if x1 > x2 { x1 - x2 } else { x2 - x1 };
        let y: i32 = if y1 > y2 { y2 } else { y1 };
        let height: i32 = if y1 > y2 { y1 - y2 } else { y2 - y1 };
        Rectangle::new(x, y, width, height)
    }

    /// Sets or removes the fill color.
    pub fn set_fill_color<C: ToColor>(&mut self, color: Option<C>) -> (r: &mut Self)
        ensures
            *r == (Rectangle { fill_color: raw_of(color), ..*old(self) }),
            *final(self) == *final(r),
    {
        self.fill_color = to_raw(color);
        self
    }

    /// Sets or removes the outline color.
    pub fn set_outline_color<C: ToColor>(&mut self, color: Option<C>) -> (r: &mut Self)
        ensures
            *r == (Rectangle { outline_color: raw_of(color), ..*old(self) }),
            *final(self) == *final(r),
    {
        self.outline_color = to_raw(color);
        self
    }

    /// Sets the thickness of the outline.
    pub fn set_outline_thickness(&mut self, thickness: i32) -> (r: &mut Self)
        ensures
            *r == (Rectangle { outline_thickness: thickness, ..*old(self) }),
            *final(self) == *final(r),
    {
        self.outline_thickness = thickness;
        self
    }
}

/// The packed value of an optional color.
pub open spec fn raw_of<C: ToColor>(color: Option<C>) -> Option<u32> {
    match color {
        Some(c) => Some(c.color_spec().0),
        None => None,
    }
}

fn to_raw<C: ToColor>(color: Option<C>) -> (r: Option<u32>)
    ensures
        r == raw_of(color),
{
    match color {
        Some(c) => Some(c.to_color().0),
        None => None,
    }
}

impl Draw for Rectangle {
    open spec fn drawn(&self, before: CanvasView) -> CanvasView {
        paint_if(
            paint_if(
                before,
                rect(self.x as int, self.y as int, self.width as int, self.height as int),
                self.fill_color,
            ),
            rect_thick_outline(
                self.x as int,
                self.y as int,
                self.width as int,
                self.height as int,
                self.outline_thickness as int,
            ),
            self.outline_color,
        )
    }

    fn draw_to(&self, canvas: &mut Canvas) {
        if let Some(fill_color) = self.fill_color {
            canvas.fill_rect(self.x, self.y, self.width, self.height, Color(fill_color));
        }
        if let Some(outline_color) = self.outline_color {
            canvas.thick_outline_rect(
                self.x,
                self.y,
                self.width,
                self.height,
                self.outline_thickness,
                Color(outline_color),
            );
        }
    }
}

/// A circle with its center, its radius and its style.
#[derive(Debug)]
pub struct Circle {
    pub x: i32,
    pub y: i32,
    pub radius: i32,
    pub outline_thickness: i32,
    pub fill_color: Option<u32>,
    pub outline_color: Option<u32>,
}

impl Circle {
    /// A circle filled with color 0 and without outline.
    pub fn new(x: i32, y: i32, radius: i32) -> (c: Circle)
        ensures
            c == (Circle {
                x,
                y,
                radius,
                outline_thickness: 1,
                fill_color: Some(0u32),
                outline_color: None,
            }),
    {
        Circle { x, y, radius, outline_thickness: 1, fill_color: Some(0), outline_color: None }
    }

    /// Sets or removes the fill color.
    pub fn set_fill_color<C: ToColor>(&mut self, color: Option<C>) -> (r: &mut Self)
        ensures
            *r == (Circle { fill_color: raw_of(color), ..*old(self) }),
            *final(self) == *final(r),
    {
        self.fill_color = to_raw(color);
        self
    }

    /// Sets or removes the outline color.
    pub fn set_outline_color<C: ToColor>(&mut self, color: Option<C>) -> (r: &mut Self)
        ensures
            *r == (Circle { outline_color: raw_of(color), ..*old(self) }),
            *final(self) == *final(r),
    {
        self.outline_color = to_raw(color);
        self
    }

    /// Sets the thickness of the outline.
    pub fn set_outline_thickness(&mut self, thickness: i32) -> (r: &mut Self)
        ensures
            *r == (Circle { outline_thickness: thickness, ..*old(self) }),
            *final(self) == *final(r),
    {
        self.outline_thickness = thickness;
        self
    }
}

impl Draw for Circle {
    open spec fn drawn(&self, before: CanvasView) -> CanvasView {
        paint_if(
            paint_if(
                before,
                circle_fill(self.x as int, self.y as int, self.radius as int),
                self.fill_color,
            ),
            circle_thick_outline(
                self.x as int,
                self.y as int,
                self.radius as int,
                self.outline_thickness as int,
            ),
            self.outline_color,
        )
    }

    fn draw_to(&self, canvas: &mut Canvas) {
        if let Some(fill_color) = self.fill_color {
            canvas.fill_circle(self.x, self.y, self.radius, Color(fill_color));
        }
        if let Some(outline_color) = self.outline_color {
            canvas.thick_outline_circle(
                self.x,
                self.y,
                self.radius,
                self.outline_thickness,
                Color(outline_color),
            );
        }
    }
}

/// A line between two points with its color and thickness.
#[derive(Debug)]
pub struct Line {
    pub x1: i32,
    pub y1: i32,
    pub x2: i32,
    pub y2: i32,
    pub fill_color: Option<u32>,
    pub thickness: i32,
}

impl Line {
    /// A line of color 0 and thickness 1.
    pub fn new(x1: i32, y1: i32, x2: i32, y2: i32) -> (l: Line)
        ensures
            l == (Line { x1, y1, x2, y2, fill_color: Some(0u32), thickness: 1 }),
    {
        Line { x1, y1, x2, y2, fill_color: Some(0), thickness: 1 }
    }

    /// Sets or removes the color.
    pub fn set_fill_color<C: ToColor>(&mut self, color: Option<C>) -> (r: &mut Self)
        ensures
            *r == (Line { fill_color: raw_of(color), ..*old(self) }),
            *final(self) == *final(r),
    {
        self.fill_color = to_raw(color);
        self
    }

    /// Sets the thickness.
    pub fn set_thickness(&mut self, thickness: i32) -> (r: &mut Self)
        ensures
            *r == (Line { thickness, ..*old(self) }),
            *final(self) == *final(r),
    {
        self.thickness = thickness;
        self
    }
}

/// An ellipse with its center, its semi-axes and its style.
#[derive(Debug)]
pub struct Ellipse {
    pub x: i32,
    pub y: i32,
    pub a: i32,
    pub b: i32,
    pub fill_color: Option<u32>,
    pub outline_color: Option<u32>,
    pub outline_thickness: i32,
}

impl Ellipse {
    /// An ellipse filled with color 0 and without outline.
    pub fn new(x: i32, y: i32, a: i32, b: i32) -> (e: Ellipse)
        ensures
            e == (Ellipse {
                x,
                y,
                a,
                b,
                fill_color: Some(0u32),
                outline_color: None,
                outline_thickness: 1,
            }),
    {
        Ellipse { x, y, a, b, fill_color: Some(0), outline_color: None, outline_thickness: 1 }
    }

    /// Sets or removes the fill color.
    pub fn set_fill_color<C: ToColor>(&mut self, color: Option<C>) -> (r: &mut Self)
        ensures
            *r == (Ellipse { fill_color: raw_of(color), ..*old(self) }),
            *final(self) == *final(r),
    {
        self.fill_color = to_raw(color);
        self
    }

    /// Sets or removes the outline color.
    pub fn set_outline_color<C: ToColor>(&mut self, color: Option<C>) -> (r: &mut Self)
        ensures
            *r == (Ellipse { outline_color: raw_of(color), ..*old(self) }),
            *final(self) == *final(r),
    {
        self.outline_color = to_raw(color);
        self
    }

    /// Sets the thickness of the outline.
    pub fn set_outline_thickness(&mut self, thickness: i32) -> (r: &mut Self)
        ensures
            *r == (Ellipse { outline_thickness: thickness, ..*old(self) }),
            *final(self) == *final(r),
    {
        self.outline_thickness = thickness;
        self
    }
}

impl Draw for Ellipse {
    /// The outline of an ellipse is drawn one pixel wide, whatever its
    /// thickness says.
    open spec fn drawn(&self, before: CanvasView) -> CanvasView {
        paint_if(
            paint_if(
                before,
                ellipse_fill(self.x as int, self.y as int, self.a as int, self.b as int),
                self.fill_color,
            ),
            ellipse_outline(self.x as int, self.y as int, self.a as int, self.b as int),
            self.outline_color,
        )
    }

    fn draw_to(&self, canvas: &mut Canvas) {
        if let Some(fill_color) = self.fill_color {
            canvas.fill_ellipse(self.x, self.y, self.a, self.b, Color(fill_color));
        }
        if let Some(outline_color) = self.outline_color {
            canvas.outline_ellipse(self.x, self.y, self.a, self.b, Color(outline_color));
        }
    }
}

/// A triangle with its three corners and its style.
#[derive(Debug)]
pub struct Triangle {
    pub x1: i32,
    pub y1: i32,
    pub x2: i32,
    pub y2: i32,
    pub x3: i32,
    pub y3: i32,
    pub fill_color: Option<u32>,
    pub outline_color: Option<u32>,
    pub outline_thickness: i32,
}

impl Triangle {
    /// A triangle filled with color 0 and without outline.
    pub fn new(x1: i32, y1: i32, x2: i32, y2: i32, x3: i32, y3: i32) -> (t: Triangle)
        ensures
            t == (Triangle {
                x1,
                y1,
                x2,
                y2,
                x3,
                y3,
                fill_color: Some(0u32),
                outline_color: None,
                outline_thickness: 1,
            }),
    {
        Triangle {
            x1,
            y1,
            x2,
            y2,
            x3,
            y3,
            fill_color: Some(0),
            outline_color: None,
            outline_thickness: 1,
        }
    }

    /// Sets or removes the fill color.
    pub fn set_fill_color<C: ToColor>(&mut self, color: Option<C>) -> (r: &mut Self)
        ensures
            *r == (Triangle { fill_color: raw_of(color), ..*old(self) }),
            *final(self) == *final(r),
    {
        self.fill_color = to_raw(color);
        self
    }

    /// Sets or removes the outline color.
    pub fn set_outline_color<C: ToColor>(&mut self, color: Option<C>) -> (r: &mut Self)
        ensures
            *r == (Triangle { outline_color: raw_of(color), ..*old(self) }),
            *final(self) == *final(r),
    {
        self.outline_color = to_raw(color);
        self
    }

    /// Sets the thickness of the outline.
    pub fn set_outline_thickness(&mut self, thickness: i32) -> (r: &mut Self)
        ensures
            *r == (Triangle { outline_thickness: thickness, ..*old(self) }),
            *final(self) == *final(r),
    {
        self.outline_thickness = thickness;
        self
    }
}

impl Canvas {
    /// Draws `drawable` on this canvas.
    pub fn draw<D: Draw>(&mut self, drawable: &D)
        requires
            old(self).wf(),
        ensures
            final(self).wf(),
            final(self)@ == drawable.drawn(old(self)@),
    {
        drawable.draw_to(self);
    }
}

} // verus!
