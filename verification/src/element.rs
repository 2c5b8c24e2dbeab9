//! Canvas elements: text and images, with positions, transforms and an
//! optional selection.
//!
//! The server never computes with an element's numeric attributes; they
//! travel through it untouched. Each one is therefore held as its wire
//! token (a number-shaped string), which keeps round trips exact.

use vstd::prelude::*;
use crate::color::{clone_string, push_char, transparent_color, Color};
use crate::ident::fresh_uuid;

verus! {

/// A character that may appear in a number token.
pub open spec fn is_num_char(c: char) -> bool {
    ||| (48 <= c as int && c as int <= 57)
    ||| c == '-'
    ||| c == '+'
    ||| c == '.'
    ||| c == 'e'
    ||| c == 'E'
}

/// A number-shaped wire token: nonempty, over the number alphabet. The
/// codec validates the alphabet, not the number grammar.
pub open spec fn num_wf(s: Seq<char>) -> bool {
    s.len() >= 1 && (forall|i: int| 0 <= i < s.len() ==> is_num_char(#[trigger] s[i]))
}

/// A numeric attribute, held as its wire token.
pub struct NumLit {
    pub text: String,
}

impl View for NumLit {
    type V = Seq<char>;

    open spec fn view(&self) -> Seq<char> {
        self.text@
    }
}

impl Clone for NumLit {
    fn clone(&self) -> (r: Self)
        ensures
            r@ == self@,
    {
        NumLit { text: clone_string(&self.text) }
    }
}

/// The token `0`.
pub fn num_zero() -> (r: NumLit)
    ensures
        r@ == seq!['0'],
{
    let mut t = String::new();
    push_char(&mut t, '0');
    proof {
        assert(t@ =~= seq!['0']);
    }
    NumLit { text: t }
}

/// The token `0.5`.
pub fn num_half() -> (r: NumLit)
    ensures
        r@ == seq!['0', '.', '5'],
{
    let mut t = String::new();
    push_char(&mut t, '0');
    push_char(&mut t, '.');
    push_char(&mut t, '5');
    proof {
        assert(t@ =~= seq!['0', '.', '5']);
    }
    NumLit { text: t }
}

/// The token `30`.
pub fn num_thirty() -> (r: NumLit)
    ensures
        r@ == seq!['3', '0'],
{
    let mut t = String::new();
    push_char(&mut t, '3');
    push_char(&mut t, '0');
    proof {
        assert(t@ =~= seq!['3', '0']);
    }
    NumLit { text: t }
}

/// Horizontal alignment of a text element.
#[derive(Clone, Copy, Debug, PartialEq, Eq, Structural)]
pub enum TextAlignment {
    Left,
    Center,
    Right,
    Justify,
}

impl Default for TextAlignment {
    fn default() -> (r: Self)
        ensures
            r == TextAlignment::Center,
    {
        TextAlignment::Center
    }
}

/// The mathematical value of a font choice.
#[verifier::ext_equal]
pub enum FontView {
    Sans(Option<Seq<char>>),
    Serif(Option<Seq<char>>),
    Mono(Option<Seq<char>>),
}

/// The font of a text element: a family with an optional custom name.
pub enum TextFont {
    Sans(Option<String>),
    Serif(Option<String>),
    Mono(Option<String>),
}

/// The view of an optional string.
pub open spec fn opt_str_view(o: Option<String>) -> Option<Seq<char>> {
    match o {
        Option::Some(s) => Option::Some(s@),
        Option::None => Option::None,
    }
}

impl View for TextFont {
    type V = FontView;

    open spec fn view(&self) -> FontView {
        match self {
            TextFont::Sans(o) => FontView::Sans(opt_str_view(*o)),
            TextFont::Serif(o) => FontView::Serif(opt_str_view(*o)),
            TextFont::Mono(o) => FontView::Mono(opt_str_view(*o)),
        }
    }
}

fn clone_opt_string(o: &Option<String>) -> (r: Option<String>)
    ensures
        opt_str_view(r) == opt_str_view(*o),
{
    match o {
        Option::Some(s) => Option::Some(clone_string(s)),
        Option::None => Option::None,
    }
}

impl Clone for TextFont {
    fn clone(&self) -> (r: Self)
        ensures
            r@ == self@,
    {
        match self {
            TextFont::Sans(o) => TextFont::Sans(clone_opt_string(o)),
            TextFont::Serif(o) => TextFont::Serif(clone_opt_string(o)),
            TextFont::Mono(o) => TextFont::Mono(clone_opt_string(o)),
        }
    }
}

impl Default for TextFont {
    fn default() -> (r: Self)
        ensures
            r@ == FontView::Sans(Option::None),
    {
        TextFont::Sans(Option::None)
    }
}

/// How an element scales when the editor zooms.
#[derive(Clone, Copy, Debug, PartialEq, Eq, Structural)]
pub enum ScaleRate {
    /// Scales at the same rate as the background; wire tag `none`.
    Plain,
    /// Scales at `bg_scale ** -0.5` for legibility; wire tag `base`.
    Base,
}

impl Default for ScaleRate {
    fn default() -> (r: Self)
        ensures
            r == ScaleRate::Plain,
    {
        ScaleRate::Plain
    }
}

/// The mathematical value of an anchor.
#[verifier::ext_equal]
pub struct AnchorView {
    pub top: Seq<char>,
    pub left: Seq<char>,
}

/// The point of an element that its coordinates refer to, as fractions
/// of its size from the top and the left.
pub struct ElementAnchor {
    pub top: NumLit,
    pub left: NumLit,
}

impl View for ElementAnchor {
    type V = AnchorView;

    open spec fn view(&self) -> AnchorView {
        AnchorView { top: self.top@, left: self.left@ }
    }
}

impl Clone for ElementAnchor {
    fn clone(&self) -> (r: Self)
        ensures
            r@ == self@,
    {
        let r = ElementAnchor { top: self.top.clone(), left: self.left.clone() };
        proof {
            assert(r@ =~= self@);
        }
        r
    }
}

impl ElementAnchor {
    /// The anchor in the middle of the element.
    pub fn centered() -> (r: ElementAnchor)
        ensures
            r@ == (AnchorView { top: seq!['0', '.', '5'], left: seq!['0', '.', '5'] }),
    {
        let r = ElementAnchor { top: num_half(), left: num_half() };
        proof {
            assert(r@ =~= AnchorView { top: seq!['0', '.', '5'], left: seq!['0', '.', '5'] });
        }
        r
    }

    /// The anchor on the top-left corner of the element.
    pub fn top_left() -> (r: ElementAnchor)
        ensures
            r@ == (AnchorView { top: seq!['0'], left: seq!['0'] }),
    {
        let r = ElementAnchor { top: num_zero(), left: num_zero() };
        proof {
            assert(r@ =~= AnchorView { top: seq!['0'], left: seq!['0'] });
        }
        r
    }
}

impl Default for ElementAnchor {
    fn default() -> (r: Self)
        ensures
            r@ == (AnchorView { top: seq!['0', '.', '5'], left: seq!['0', '.', '5'] }),
    {
        ElementAnchor::centered()
    }
}

/// The mathematical value of a text element.
#[verifier::ext_equal]
pub struct TextView {
    pub content: Seq<char>,
    pub align: TextAlignment,
    pub color: Seq<char>,
    pub size: Seq<char>,
    pub font: FontView,
    pub background_color: Seq<char>,
    pub background_blur: Seq<char>,
}

/// A piece of text on the canvas.
pub struct ElementText {
    pub content: String,
    pub align: TextAlignment,
    pub color: Color,
    pub size: NumLit,
    pub font: TextFont,
    pub background_color: Color,
    pub background_blur: NumLit,
}

impl View for ElementText {
    type V = TextView;

    open spec fn view(&self) -> TextView {
        TextView {
            content: self.content@,
            align: self.align,
            color: self.color@,
            size: self.size@,
            font: self.font@,
            background_color: self.background_color@,
            background_blur: self.background_blur@,
        }
    }
}

impl Clone for ElementText {
    fn clone(&self) -> (r: Self)
        ensures
            r@ == self@,
    {
        let r = ElementText {
            content: clone_string(&self.content),
            align: self.align,
            color: self.color.clone(),
            size: self.size.clone(),
            font: self.font.clone(),
            background_color: self.background_color.clone(),
            background_blur: self.background_blur.clone(),
        };
        proof {
            assert(r@ =~= self@);
        }
        r
    }
}

impl ElementText {
    /// A fresh text element with default styling and a random color.
    pub fn new(content: String) -> (r: ElementText)
        ensures
            r@.content == content@,
            r@.align == TextAlignment::Center,
            r@.size == seq!['3', '0'],
            r@.font == FontView::Sans(Option::<Seq<char>>::None),
            r@.background_color == crate::color::transparent_seq(),
            r@.background_blur == seq!['0'],
            crate::color::color_wf(r@.color),
            crate::color::palette_member(r@.color),
    {
        ElementText {
            content,
            align: TextAlignment::Center,
            color: Color::get_random_color(),
            size: num_thirty(),
            font: TextFont::Sans(Option::None),
            background_color: transparent_color(),
            background_blur: num_zero(),
        }
    }
}

/// The mathematical value of an image crop.
#[verifier::ext_equal]
pub struct CropView {
    pub left: Seq<char>,
    pub top: Seq<char>,
    pub right: Seq<char>,
    pub bottom: Seq<char>,
}

/// How an image is cropped along each edge, in percentages.
pub struct ImageCrop {
    pub left: NumLit,
    pub top: NumLit,
    pub right: NumLit,
    pub bottom: NumLit,
}

impl View for ImageCrop {
    type V = CropView;

    open spec fn view(&self) -> CropView {
        CropView {
            left: self.left@,
            top: self.top@,
            right: self.right@,
            bottom: self.bottom@,
        }
    }
}

impl Clone for ImageCrop {
    fn clone(&self) -> (r: Self)
        ensures
            r@ == self@,
    {
        let r = ImageCrop {
            left: self.left.clone(),
            top: self.top.clone(),
            right: self.right.clone(),
            bottom: self.bottom.clone(),
        };
        proof {
            assert(r@ =~= self@);
        }
        r
    }
}

/// The mathematical value of a caption on an image.
#[verifier::ext_equal]
pub struct ImageTextView {
    pub x: Seq<char>,
    pub y: Seq<char>,
    pub anchor: AnchorView,
    pub text: TextView,
}

/// A caption placed on an image, positioned relative to it.
pub struct ImageText {
    pub x: NumLit,
    pub y: NumLit,
    pub anchor: ElementAnchor,
    pub text: ElementText,
}

impl View for ImageText {
    type V = ImageTextView;

    open spec fn view(&self) -> ImageTextView {
        ImageTextView { x: self.x@, y: self.y@, anchor: self.anchor@, text: self.text@ }
    }
}

impl Clone for ImageText {
    fn clone(&self) -> (r: Self)
        ensures
            r@ == self@,
    {
        let r = ImageText {
            x: self.x.clone(),
            y: self.y.clone(),
            anchor: self.anchor.clone(),
            text: self.text.clone(),
        };
        proof {
            assert(r@ =~= self@);
        }
        r
    }
}

fn clone_image_texts(v: &Vec<ImageText>) -> (r: Vec<ImageText>)
    ensures
        r@.map_values(|t: ImageText| t@) == v@.map_values(|t: ImageText| t@),
{
    let mut r: Vec<ImageText> = Vec::new();
    let mut i: usize = 0;
    while i < v.len()
        invariant
            i <= v@.len(),
            r@.len() == i,
            forall|j: int| 0 <= j < i ==> r@[j]@ == v@[j]@,
        decreases v@.len() - i,
    {
        r.push(v[i].clone());
        i = i + 1;
    }
    proof {
        assert(r@.map_values(|t: ImageText| t@) =~= v@.map_values(|t: ImageText| t@));
    }
    r
}

/// The mathematical value of an image element.
#[verifier::ext_equal]
pub struct ImageView {
    pub url: Seq<char>,
    pub alt: Seq<char>,
    pub scale_x: Seq<char>,
    pub scale_y: Seq<char>,
    pub crop: CropView,
    pub outline_color: Seq<char>,
    pub outline_thickness: Seq<char>,
    pub outline_blur: Seq<char>,
    pub text: Seq<ImageTextView>,
}

/// An image on the canvas.
pub struct ElementImage {
    pub url: String,
    pub alt: String,
    pub scale_x: NumLit,
    pub scale_y: NumLit,
    pub crop: ImageCrop,
    pub outline_color: Color,
    pub outline_thickness: NumLit,
    pub outline_blur: NumLit,
    pub text: Vec<ImageText>,
}

impl View for ElementImage {
    type V = ImageView;

    open spec fn view(&self) -> ImageView {
        ImageView {
            url: self.url@,
            alt: self.alt@,
            scale_x: self.scale_x@,
            scale_y: self.scale_y@,
            crop: self.crop@,
            outline_color: self.outline_color@,
            outline_thickness: self.outline_thickness@,
            outline_blur: self.outline_blur@,
            text: self.text@.map_values(|t: ImageText| t@),
        }
    }
}

impl Clone for ElementImage {
    fn clone(&self) -> (r: Self)
        ensures
            r@ == self@,
    {
        let r = ElementImage {
            url: clone_string(&self.url),
            alt: clone_string(&self.alt),
            scale_x: self.scale_x.clone(),
            scale_y: self.scale_y.clone(),
            crop: self.crop.clone(),
            outline_color: self.outline_color.clone(),
            outline_thickness: self.outline_thickness.clone(),
            outline_blur: self.outline_blur.clone(),
            text: clone_image_texts(&self.text),
        };
        proof {
            assert(r@ =~= self@);
        }
        r
    }
}

/// The mathematical value of an element's payload.
#[verifier::ext_equal]
pub enum ElementTypeView {
    Text(TextView),
    Image(ImageView),
}

/// An element's payload: the kind of thing it is, with that kind's data.
pub enum ElementType {
    Text(ElementText),
    Image(ElementImage),
}

impl View for ElementType {
    type V = ElementTypeView;

    open spec fn view(&self) -> ElementTypeView {
        match self {
            ElementType::Text(t) => ElementTypeView::Text(t@),
            ElementType::Image(m) => ElementTypeView::Image(m@),
        }
    }
}

impl Clone for ElementType {
    fn clone(&self) -> (r: Self)
        ensures
            r@ == self@,
    {
        match self {
            ElementType::Text(t) => ElementType::Text(t.clone()),
            ElementType::Image(m) => ElementType::Image(m.clone()),
        }
    }
}

fn clone_strings(v: &Vec<String>) -> (r: Vec<String>)
    ensures
        r@.map_values(|t: String| t@) == v@.map_values(|t: String| t@),
{
    let mut r: Vec<String> = Vec::new();
    let mut i: usize = 0;
    while i < v.len()
        invariant
            i <= v@.len(),
            r@.len() == i,
            forall|j: int| 0 <= j < i ==> r@[j]@ == v@[j]@,
        decreases v@.len() - i,
    {
        r.push(clone_string(&v[i]));
        i = i + 1;
    }
    proof {
        assert(r@.map_values(|t: String| t@) =~= v@.map_values(|t: String| t@));
    }
    r
}

/// The mathematical value of an element.
#[verifier::ext_equal]
pub struct ElementView {
    pub uuid: u128,
    pub ty: ElementTypeView,
    pub last_edited_by: Option<u128>,
    pub selected_by: Option<u128>,
    pub x: Seq<char>,
    pub y: Seq<char>,
    pub anchor: AnchorView,
    pub rotation: Seq<char>,
    pub scale_rate: ScaleRate,
    pub z_index: Seq<char>,
    pub tags: Seq<Seq<char>>,
}

/// A single element on a canvas: its identity, payload, transform,
/// selection state and tags.
pub struct Element {
    pub uuid: u128,
    pub ty: ElementType,
    pub last_edited_by: Option<u128>,
    pub selected_by: Option<u128>,
    pub x: NumLit,
    pub y: NumLit,
    pub anchor: ElementAnchor,
    pub rotation: NumLit,
    pub scale_rate: ScaleRate,
    pub z_index: NumLit,
    pub tags: Vec<String>,
}

impl View for Element {
    type V = ElementView;

    open spec fn view(&self) -> ElementView {
        ElementView {
            uuid: self.uuid,
            ty: self.ty@,
            last_edited_by: self.last_edited_by,
            selected_by: self.selected_by,
            x: self.x@,
            y: self.y@,
            anchor: self.anchor@,
            rotation: self.rotation@,
            scale_rate: self.scale_rate,
            z_index: self.z_index@,
            tags: self.tags@.map_values(|t: String| t@),
        }
    }
}

impl Clone for Element {
    fn clone(&self) -> (r: Self)
        ensures
            r@ == self@,
    {
        let r = Element {
            uuid: self.uuid,
            ty: self.ty.clone(),
            last_edited_by: self.last_edited_by,
            selected_by: self.selected_by,
            x: self.x.clone(),
            y: self.y.clone(),
            anchor: self.anchor.clone(),
            rotation: self.rotation.clone(),
            scale_rate: self.scale_rate,
            z_index: self.z_index.clone(),
            tags: clone_strings(&self.tags),
        };
        proof {
            assert(r@ =~= self@);
        }
        r
    }
}

impl Element {
    /// A fresh, unselected element with the given payload at the origin.
    /// Its identifier is drawn at random.
    pub fn new(el: ElementType) -> (r: Element)
        ensures
            r@.ty == el@,
            r@.last_edited_by is None,
            r@.selected_by is None,
            r@.x == seq!['0'],
            r@.y == seq!['0'],
            r@.anchor == (AnchorView { top: seq!['0', '.', '5'], left: seq!['0', '.', '5'] }),
            r@.rotation == seq!['0'],
            r@.scale_rate == ScaleRate::Plain,
            r@.z_index == seq!['0'],
            r@.tags == Seq::<Seq<char>>::empty(),
    {
        let r = Element {
            uuid: fresh_uuid(),
            ty: el,
            last_edited_by: Option::None,
            selected_by: Option::None,
            x: num_zero(),
            y: num_zero(),
            anchor: ElementAnchor::default(),
            rotation: num_zero(),
            scale_rate: ScaleRate::Plain,
            z_index: num_zero(),
            tags: Vec::new(),
        };
        proof {
            assert(r@.tags =~= Seq::<Seq<char>>::empty());
        }
        r
    }
}

/// Copies a list of elements, preserving each element's value.
pub fn clone_elements(v: &Vec<Element>) -> (r: Vec<Element>)
    ensures
        r@.map_values(|e: Element| e@) == v@.map_values(|e: Element| e@),
        r@.len() == v@.len(),
{
    let mut r: Vec<Element> = Vec::new();
    let mut i: usize = 0;
    while i < v.len()
        invariant
            i <= v@.len(),
            r@.len() == i,
            forall|j: int| 0 <= j < i ==> r@[j]@ == v@[j]@,
        decreases v@.len() - i,
    {
        r.push(v[i].clone());
        i = i + 1;
    }
    proof {
        assert(r@.map_values(|e: Element| e@) =~= v@.map_values(|e: Element| e@));
    }
    r
}

} // verus!
