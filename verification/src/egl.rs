//! Bookkeeping for the GL textures shared with the renderer: which texture and
//! which EGL image belong to a window, and how a GPU buffer is described to EGL.

use std::collections::HashMap;
use vstd::prelude::*;

use crate::event::DmabufPlane;

verus! {

broadcast use vstd::std_specs::hash::group_hash_axioms;

/// `EGL_WIDTH`.
pub const WIDTH: i32 = 0x3057;

/// `EGL_HEIGHT`.
pub const HEIGHT: i32 = 0x3056;

/// `EGL_LINUX_DRM_FOURCC_EXT`.
pub const LINUX_DRM_FOURCC_EXT: i32 = 0x3271;

/// `EGL_DMA_BUF_PLANE0_FD_EXT`.
pub const PLANE0_FD_EXT: i32 = 0x3272;

/// `EGL_DMA_BUF_PLANE0_OFFSET_EXT`.
pub const PLANE0_OFFSET_EXT: i32 = 0x3273;

/// `EGL_DMA_BUF_PLANE0_PITCH_EXT`.
pub const PLANE0_PITCH_EXT: i32 = 0x3274;

/// `EGL_DMA_BUF_PLANE0_MODIFIER_LO_EXT`.
pub const PLANE0_MODIFIER_LO_EXT: i32 = 0x3443;

/// `EGL_DMA_BUF_PLANE0_MODIFIER_HI_EXT`.
pub const PLANE0_MODIFIER_HI_EXT: i32 = 0x3444;

/// `EGL_NONE`, which ends a list of attributes.
pub const ATTRIBS_END: i32 = 0x3038;

/// `DRM_FORMAT_MOD_INVALID`: omit explicit modifier attributes when set.
pub const MOD_INVALID: u64 = 0x00ff_ffff_ffff_ffff;

/// `DRM_FORMAT_MOD_LINEAR`.
pub const MOD_LINEAR: u64 = 0;

/// The FourCC code of 32-bit colour with alpha (`AR24`).
pub const ARGB8888: u32 = 0x3432_5241;

/// The FourCC code of 32-bit colour without alpha (`XR24`).
pub const XRGB8888: u32 = 0x3432_5258;

/// The formats and modifiers of GPU buffers that are offered to clients: common
/// 32-bit formats, implicit or linear. Whether one can be imported is only known
/// when it is tried.
pub fn offered_formats() -> (r: Vec<(u32, u64)>)
    ensures
        r@ == seq![
            (ARGB8888, MOD_INVALID),
            (ARGB8888, MOD_LINEAR),
            (XRGB8888, MOD_INVALID),
            (XRGB8888, MOD_LINEAR),
        ],
{
    vec![
        (ARGB8888, MOD_INVALID),
        (ARGB8888, MOD_LINEAR),
        (XRGB8888, MOD_INVALID),
        (XRGB8888, MOD_LINEAR),
    ]
}

/// A client shm frame waiting to be uploaded to its texture.
#[derive(Debug, PartialEq, Eq)]
pub struct Frame {
    pub width: u32,
    pub height: u32,
    /// Tightly-packed RGBA8, `width * height * 4` bytes.
    pub pixels: Vec<u8>,
}

/// A client GPU (dmabuf) frame waiting to be imported as an EGLImage texture.
/// Single-plane only for now.
#[derive(Debug, Clone, Copy, PartialEq, Eq)]
pub struct DmabufFrame {
    pub width: u32,
    pub height: u32,
    pub fourcc: u32,
    pub modifier: u64,
    /// The file descriptor of the plane.
    pub fd: i32,
    pub offset: u32,
    pub stride: u32,
}

/// The frame for a GPU buffer: its first plane. A buffer without planes gives
/// none.
pub fn dmabuf_frame(
    width: u32,
    height: u32,
    fourcc: u32,
    modifier: u64,
    planes: &Vec<DmabufPlane>,
) -> (r: Option<DmabufFrame>)
    ensures
        r == if planes@.len() == 0 {
            None
        } else {
            Some(
                (DmabufFrame {
                    width,
                    height,
                    fourcc,
                    modifier,
                    fd: planes@[0].fd,
                    offset: planes@[0].offset,
                    stride: planes@[0].stride,
                }),
            )
        },
{
    if planes.len() == 0 {
        return None;
    }
    Some(
        DmabufFrame {
            width,
            height,
            fourcc,
            modifier,
            fd: planes[0].fd,
            offset: planes[0].offset,
            stride: planes[0].stride,
        },
    )
}

/// The two halves of a buffer's modifier as attributes; none where the modifier
/// is not known.
pub open spec fn modifier_attribs(modifier: u64) -> Seq<i32> {
    if modifier == MOD_INVALID {
        Seq::empty()
    } else {
        seq![
            PLANE0_MODIFIER_LO_EXT,
            (modifier & 0xffff_ffff) as i32,
            PLANE0_MODIFIER_HI_EXT,
            (modifier >> 32) as i32,
        ]
    }
}

/// The attributes that describe a frame to `eglCreateImageKHR`.
pub open spec fn attribs_of(f: DmabufFrame) -> Seq<i32> {
    seq![
        WIDTH,
        f.width as i32,
        HEIGHT,
        f.height as i32,
        LINUX_DRM_FOURCC_EXT,
        f.fourcc as i32,
        PLANE0_FD_EXT,
        f.fd,
        PLANE0_OFFSET_EXT,
        f.offset as i32,
        PLANE0_PITCH_EXT,
        f.stride as i32,
    ] + modifier_attribs(f.modifier) + seq![ATTRIBS_END]
}

/// The attributes to import a frame with. Each number is handed over with its
/// bits unchanged.
pub fn import_attribs(frame: &DmabufFrame) -> (r: Vec<i32>)
    ensures
        r@ == attribs_of(*frame),
{
    let mut v: Vec<i32> = vec![
        WIDTH,
        #[verifier::truncate] (frame.width as i32),
        HEIGHT,
        #[verifier::truncate] (frame.height as i32),
        LINUX_DRM_FOURCC_EXT,
        #[verifier::truncate] (frame.fourcc as i32),
        PLANE0_FD_EXT,
        frame.fd,
        PLANE0_OFFSET_EXT,
        #[verifier::truncate] (frame.offset as i32),
        PLANE0_PITCH_EXT,
        #[verifier::truncate] (frame.stride as i32),
    ];
    if frame.modifier != MOD_INVALID {
        v.push(PLANE0_MODIFIER_LO_EXT);
        v.push(#[verifier::truncate] ((frame.modifier & 0xffff_ffff) as i32));
        v.push(PLANE0_MODIFIER_HI_EXT);
        v.push(#[verifier::truncate] ((frame.modifier >> 32) as i32));
    }
    v.push(ATTRIBS_END);
    assert(v@ =~= attribs_of(*frame));
    v
}

/// The texture of a window and the size of what it holds.
#[derive(Debug, Clone, Copy, PartialEq, Eq)]
pub struct Texture {
    pub name: u32,
    pub width: u32,
    pub height: u32,
}

/// What is to be freed for a removed window.
#[derive(Debug, Clone, Copy, PartialEq, Eq)]
pub struct Released {
    pub texture: Option<Texture>,
    pub image: Option<u64>,
}

/// Owns the names of the per-window GL textures and EGL images.
#[derive(Debug)]
pub struct GlBridge {
    ready: bool,
    importing: bool,
    /// window id -> texture
    textures: HashMap<u64, Texture>,
    /// window id -> live EGL image backing its texture
    images: HashMap<u64, u64>,
}

/// What a [`GlBridge`] holds.
#[verifier::ext_equal]
pub struct BridgeView {
    /// Whether there is a GL context.
    pub ready: bool,
    /// Whether GPU buffers can be imported.
    pub importing: bool,
    pub textures: Map<u64, Texture>,
    pub images: Map<u64, u64>,
}

impl View for GlBridge {
    type V = BridgeView;

    closed spec fn view(&self) -> BridgeView {
        BridgeView {
            ready: self.ready,
            importing: self.importing,
            textures: self.textures@,
            images: self.images@,
        }
    }
}

/// The value of `k`, where there is one.
pub open spec fn at<V>(m: Map<u64, V>, k: u64) -> Option<V> {
    if m.contains_key(k) {
        Some(m[k])
    } else {
        None
    }
}

impl BridgeView {
    /// A bridge without a context.
    pub open spec fn empty() -> BridgeView {
        BridgeView {
            ready: false,
            importing: false,
            textures: Map::empty(),
            images: Map::empty(),
        }
    }

    /// With a texture for a window.
    pub open spec fn with_texture(self, id: u64, t: Texture) -> BridgeView {
        BridgeView { textures: self.textures.insert(id, t), ..self }
    }

    /// With an image behind the texture of a window.
    pub open spec fn with_image(self, id: u64, image: u64) -> BridgeView {
        BridgeView { images: self.images.insert(id, image), ..self }
    }

    /// Without a window.
    pub open spec fn without(self, id: u64) -> BridgeView {
        BridgeView { textures: self.textures.remove(id), images: self.images.remove(id), ..self }
    }
}

impl Default for GlBridge {
    fn default() -> (r: Self)
        ensures
            r@ == BridgeView::empty(),
    {
        let r = GlBridge {
            ready: false,
            importing: false,
            textures: HashMap::new(),
            images: HashMap::new(),
        };
        assert(r@ =~= BridgeView::empty());
        r
    }
}

impl GlBridge {
    /// A GL context is there (idempotent). `importing` says whether all the
    /// entry points for importing GPU buffers could be resolved.
    pub fn init(&mut self, importing: bool)
        ensures
            final(self)@ == if old(self)@.ready {
                old(self)@
            } else {
                BridgeView { ready: true, importing, ..old(self)@ }
            },
    {
        if self.ready {
            return;
        }
        self.ready = true;
        self.importing = importing;
    }

    /// Whether there is a GL context.
    pub fn ready(&self) -> (r: bool)
        ensures
            r == self@.ready,
    {
        self.ready
    }

    /// Whether GPU buffers can be imported.
    pub fn can_import(&self) -> (r: bool)
        ensures
            r == (self@.ready && self@.importing),
    {
        self.ready && self.importing
    }

    /// The texture to draw a window into, where it has one already.
    pub fn texture(&self, id: u64) -> (r: Option<Texture>)
        ensures
            r == at(self@.textures, id),
    {
        match self.textures.get(&id) {
            Some(t) => Some(*t),
            None => None,
        }
    }

    /// A shm frame was uploaded into the texture `name`.
    pub fn upload(&mut self, id: u64, name: u32, frame: &Frame)
        ensures
            final(self)@ == old(self)@.with_texture(
                id,
                (Texture { name, width: frame.width, height: frame.height }),
            ),
    {
        let ghost before = self@;
        self.textures.insert(id, Texture { name, width: frame.width, height: frame.height });
        assert(self@ =~= before.with_texture(
            id,
            Texture { name, width: frame.width, height: frame.height },
        ));
    }

    /// An EGL image was made for a window. Returns the one it replaces, which is
    /// to be destroyed.
    pub fn import_dmabuf(&mut self, id: u64, image: u64) -> (r: Option<u64>)
        ensures
            final(self)@ == old(self)@.with_image(id, image),
            r == at(old(self)@.images, id),
    {
        let ghost before = self@;
        let old_image = self.images.insert(id, image);
        assert(self@ =~= before.with_image(id, image));
        old_image
    }

    /// An EGL image was bound to the texture `name`.
    pub fn bind_dmabuf(&mut self, id: u64, name: u32, frame: &DmabufFrame)
        ensures
            final(self)@ == old(self)@.with_texture(
                id,
                (Texture { name, width: frame.width, height: frame.height }),
            ),
    {
        let ghost before = self@;
        self.textures.insert(id, Texture { name, width: frame.width, height: frame.height });
        assert(self@ =~= before.with_texture(
            id,
            Texture { name, width: frame.width, height: frame.height },
        ));
    }

    /// Forget a removed window. Returns its texture and its EGL image, which are
    /// to be deleted.
    pub fn remove(&mut self, id: u64) -> (r: Released)
        ensures
            final(self)@ == old(self)@.without(id),
            r.texture == at(old(self)@.textures, id),
            r.image == at(old(self)@.images, id),
    {
        let ghost before = self@;
        let texture = self.textures.remove(&id);
        let image = self.images.remove(&id);
        assert(self@ =~= before.without(id));
        Released { texture, image }
    }
}

// ---------------------------------------------------------------------------
// Laws
// ---------------------------------------------------------------------------

/// A list of attributes is made of pairs and ends where EGL expects it to.
pub proof fn law_attribs_are_terminated(f: DmabufFrame)
    ensures
        attribs_of(f).len() % 2 == 1,
        attribs_of(f).last() == ATTRIBS_END,
{
}

/// Nothing is kept of a removed window, and the others keep theirs.
pub proof fn law_removal_is_complete(b: BridgeView, id: u64, other: u64)
    requires
        other != id,
    ensures
        at(b.without(id).textures, id) is None,
        at(b.without(id).images, id) is None,
        at(b.without(id).textures, other) == at(b.textures, other),
        at(b.without(id).images, other) == at(b.images, other),
{
}

/// The attributes name the size, the format, the file, the offset and the pitch
/// of the buffer, each before its value.
pub proof fn law_attribs_name_their_values(f: DmabufFrame)
    requires
        f.width <= i32::MAX,
        f.height <= i32::MAX,
        f.fourcc <= i32::MAX,
        f.offset <= i32::MAX,
        f.stride <= i32::MAX,
    ensures
        ({
            let a = attribs_of(f);
            &&& a.take(12) == seq![
                0x3057i32,
                f.width as i32,
                0x3056,
                f.height as i32,
                0x3271,
                f.fourcc as i32,
                0x3272,
                f.fd,
                0x3273,
                f.offset as i32,
                0x3274,
                f.stride as i32,
            ]
            &&& a[1] == f.width && a[3] == f.height && a[5] == f.fourcc && a[9] == f.offset && a[11]
                == f.stride
            &&& f.modifier == 0x00ff_ffff_ffff_ffff ==> a.len() == 13
            &&& f.modifier != 0x00ff_ffff_ffff_ffff ==> a.len() == 17 && a[12] == 0x3443 && a[14]
                == 0x3444
            &&& a.last() == 0x3038
        }),
{
    assert(attribs_of(f).take(12) =~= seq![
        0x3057i32,
        f.width as i32,
        0x3056,
        f.height as i32,
        0x3271,
        f.fourcc as i32,
        0x3272,
        f.fd,
        0x3273,
        f.offset as i32,
        0x3274,
        f.stride as i32,
    ]);
}

/// A modifier is handed over in two halves, the low one first.
pub proof fn law_modifier_halves(f: DmabufFrame)
    requires
        f.modifier != 0x00ff_ffff_ffff_ffff,
    ensures
        ({
            let a = attribs_of(f);
            a[13] as u32 as u64 + 0x1_0000_0000 * (a[15] as u32 as u64) == f.modifier
        }),
{
    let m = f.modifier;
    let a = attribs_of(f);
    assert(a[13] == (m & 0xffff_ffff) as i32);
    assert(a[15] == (m >> 32) as i32);
    assert(((m & 0xffff_ffff) as i32) as u32 as u64 + 0x1_0000_0000u64 * (((m
        >> 32) as i32) as u32 as u64) == m) by (bit_vector);
}

/// The formats are those that spell "AR24" and "XR24", low byte first.
pub proof fn law_formats_are_spelled()
    ensures
        ARGB8888 == 'A' as int + 256 * ('R' as int) + 65536 * ('2' as int) + 16777216 * (
        '4' as int),
        XRGB8888 == 'X' as int + 256 * ('R' as int) + 65536 * ('2' as int) + 16777216 * (
        '4' as int),
        MOD_LINEAR == 0,
        MOD_INVALID == 0x00ff_ffff_ffff_ffff,
{
}

/// What is kept for a window is found under its id, and what is kept for others
/// stays.
pub proof fn law_textures_are_kept_by_window(
    b: BridgeView,
    id: u64,
    t: Texture,
    image: u64,
    other: u64,
)
    requires
        other != id,
    ensures
        at(b.with_texture(id, t).textures, id) == Some(t),
        at(b.with_texture(id, t).textures, other) == at(b.textures, other),
        b.with_texture(id, t).images == b.images,
        at(b.with_image(id, image).images, id) == Some(image),
        at(b.with_image(id, image).images, other) == at(b.images, other),
        b.with_image(id, image).textures == b.textures,
{
}

} // verus!
