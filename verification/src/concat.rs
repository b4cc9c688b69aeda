use vstd::prelude::*;

use crate::error::{is_invalid_input, ProcessError};
use crate::format::TextureFormat;
use crate::layout::{PngColor, RgbaBuffer, RowEncoding, SourceLayout, TiffColor};
use crate::text::{append_u32, decimal};

verus! {

/// Which output channel a channel source fills.
#[derive(Debug, PartialEq, Eq, Structural, Clone, Copy, Hash)]
pub enum Role {
    Red,
    Green,
    Blue,
    Alpha,
}

impl Role {
    /// The name of the command-line flag that supplies this role's source.
    pub open spec fn spec_flag_name(self) -> Seq<char> {
        match self {
            Role::Red => "red"@,
            Role::Green => "green"@,
            Role::Blue => "blue"@,
            Role::Alpha => "alpha"@,
        }
    }

    /// The name of the command-line flag that supplies this role's source.
    pub fn flag_name(&self) -> (r: &'static str)
        ensures
            r@ == self.spec_flag_name(),
    {
        match self {
            Role::Red => "red",
            Role::Green => "green",
            Role::Blue => "blue",
            Role::Alpha => "alpha",
        }
    }
}

/// The output channel a role fills: red 0, green 1, blue 2, alpha 3.
pub open spec fn spec_role_index(role: Role) -> int {
    match role {
        Role::Red => 0,
        Role::Green => 1,
        Role::Blue => 2,
        Role::Alpha => 3,
    }
}

/// The output channel a role fills: red 0, green 1, blue 2, alpha 3.
pub fn role_index(role: Role) -> (r: usize)
    ensures
        r == spec_role_index(role),
{
    match role {
        Role::Red => 0,
        Role::Green => 1,
        Role::Blue => 2,
        Role::Alpha => 3,
    }
}

/// The RGBA channel (0 to 3) of a source that its role reads, or `None`
/// where there is nothing to read. A grayscale source gives its one channel
/// for every role, except its alpha for the alpha role where it has one; a
/// color source gives the channel of the same name, and has nothing for the
/// alpha role unless it has alpha.
pub open spec fn spec_role_channel(is_gray: bool, has_alpha: bool, role: Role) -> Option<int> {
    if is_gray {
        if role == Role::Alpha && has_alpha {
            Some(3)
        } else {
            Some(0)
        }
    } else {
        match role {
            Role::Red => Some(0),
            Role::Green => Some(1),
            Role::Blue => Some(2),
            Role::Alpha => if has_alpha {
                Some(3)
            } else {
                None
            },
        }
    }
}

/// The text of the error for an alpha role whose source has no alpha.
pub open spec fn no_alpha_message() -> Seq<char> {
    "`--alpha` source has no alpha channel to extract (pass an RGBA/grayscale+alpha image, or omit `--alpha` for RGB output)"@
}

/// The RGBA channel (0 to 3) of a source that its role reads; an error for
/// the alpha role of a color source without alpha.
pub fn role_channel(is_gray: bool, has_alpha: bool, role: Role) -> (r: Result<usize, ProcessError>)
    ensures
        spec_role_channel(is_gray, has_alpha, role) matches Some(c) ==> r == Ok::<
            usize,
            ProcessError,
        >(c as usize),
        spec_role_channel(is_gray, has_alpha, role) is None ==> is_invalid_input(
            r,
            no_alpha_message(),
        ),
{
    if is_gray {
        if matches!(role, Role::Alpha) && has_alpha {
            Ok(3)
        } else {
            Ok(0)
        }
    } else {
        match role {
            Role::Red => Ok(0),
            Role::Green => Ok(1),
            Role::Blue => Ok(2),
            Role::Alpha => {
                if has_alpha {
                    Ok(3)
                } else {
                    Err(
                        ProcessError::InvalidInput(
                            "`--alpha` source has no alpha channel to extract (pass an RGBA/grayscale+alpha image, or omit `--alpha` for RGB output)".to_owned(),
                        ),
                    )
                }
            },
        }
    }
}

/// The index, within each pixel of a decoded row of `layout`, of the sample
/// a role reads (alpha being a pixel's last sample), or `None` where there is
/// nothing to read.
pub open spec fn spec_row_channel(layout: SourceLayout, role: Role) -> Option<int> {
    match spec_role_channel(layout.is_gray, layout.has_alpha, role) {
        Some(c) => Some(
            if c == 3 {
                layout.channels - 1
            } else {
                c
            },
        ),
        None => None,
    }
}

/// The samples of a decoded row that a role reads, one per whole pixel, or
/// `None` where the source has nothing for that role.
pub open spec fn spec_extract_role(layout: SourceLayout, row: Seq<u8>, role: Role) -> Option<
    Seq<u8>,
> {
    match spec_row_channel(layout, role) {
        Some(c) => Some(
            Seq::new(
                (row.len() as int / (layout.channels as int)) as nat,
                |x: int| row[x * layout.channels + c],
            ),
        ),
        None => None,
    }
}

/// Picks the samples of one decoded row that a role reads, one per pixel.
/// An error for the alpha role of a color source without alpha.
pub fn extract_role(layout: SourceLayout, row: &[u8], role: Role) -> (r: Result<
    Vec<u8>,
    ProcessError,
>)
    requires
        layout.wf(),
    ensures
        spec_extract_role(layout, row@, role) matches Some(v) ==> (r matches Ok(out) && out@ == v),
        spec_extract_role(layout, row@, role) is None ==> is_invalid_input(r, no_alpha_message()),
{
    let c = match role_channel(layout.is_gray, layout.has_alpha, role) {
        Ok(c) => c,
        Err(e) => return Err(e),
    };
    let c = if c == 3 {
        layout.channels - 1
    } else {
        c
    };
    let channels = layout.channels;
    let len = row.len();
    let n = len / channels;
    let mut out: Vec<u8> = Vec::new();
    let mut x: usize = 0;
    let mut base: usize = 0;
    while x < n
        invariant
            layout.wf(),
            channels == layout.channels,
            c < channels,
            len == row@.len(),
            n == row@.len() as int / (channels as int),
            x <= n,
            base == x * channels,
            out@.len() == x,
            forall|k: int| 0 <= k < x ==> #[trigger] out@[k] == row@[k * channels + c],
        decreases n - x,
    {
        assert(base + channels <= row@.len()) by (nonlinear_arith)
            requires
                base == x * channels,
                x < n,
                n == row@.len() as int / (channels as int),
                channels > 0,
        {
            assert((x + 1) * channels <= n * channels);
            assert(n * channels <= row@.len());
        }
        out.push(row[base + c]);
        assert((x + 1) * channels == x * channels + channels) by (nonlinear_arith);
        x = x + 1;
        base = base + channels;
    }
    proof {
        let v = spec_extract_role(layout, row@, role).unwrap();
        assert(out@ =~= v);
    }
    Ok(out)
}

/// `old` with, for each value `values[x]`, the byte of output pixel `x` at
/// channel `index` replaced by it (pixels of `out_channels` bytes each).
pub open spec fn spec_place(old: Seq<u8>, out_channels: int, index: int, values: Seq<u8>) -> Seq<u8> {
    Seq::new(
        old.len(),
        |j: int|
            if j % out_channels == index && j / out_channels < values.len() {
                values[j / out_channels]
            } else {
                old[j]
            },
    )
}

/// The text of the error for a channel source whose size differs from the
/// first source's.
pub open spec fn role_size_message(role: Role, w: u32, h: u32, width: u32, height: u32) -> Seq<
    char,
> {
    "`--"@ + role.spec_flag_name() + "` source is "@ + decimal(w as nat) + "x"@ + decimal(
        h as nat,
    ) + ", but expected "@ + decimal(width as nat) + "x"@ + decimal(height as nat)
        + " to match the other channel sources"@
}

fn role_size_error(role: Role, w: u32, h: u32, width: u32, height: u32) -> (e: ProcessError)
    ensures
        is_invalid_input(Err::<(), ProcessError>(e), role_size_message(role, w, h, width, height)),
{
    let mut m = "`--".to_owned();
    m.append(role.flag_name());
    m.append("` source is ");
    append_u32(&mut m, w);
    m.append("x");
    append_u32(&mut m, h);
    m.append(", but expected ");
    append_u32(&mut m, width);
    m.append("x");
    append_u32(&mut m, height);
    m.append(" to match the other channel sources");
    ProcessError::InvalidInput(m)
}

/// The text of the error for a channel source running out of rows.
pub open spec fn source_ended_message(role: Role) -> Seq<char> {
    "`--"@ + role.spec_flag_name()
        + "` source ended before the others (all channel sources must be the same size)"@
}

/// Whether the `k`-th opened source has a different size from the first.
pub open spec fn layout_size_differs<T>(sources: Seq<(Role, Option<(SourceLayout, T)>)>, k: int) -> bool {
    !sources[k].1.unwrap().0.same_size(sources[0].1.unwrap().0)
}

/// Decides whether the channel sources of a concatenation can all be
/// streamed. `sources` holds each role with its source opened as a row
/// source, in order, up to and including the first one that is not
/// PNG/TIFF-streamable (`None`). Gives `Ok(None)` (fall back to the buffered
/// path) if any is missing, an error naming the first source whose size
/// differs from the first one's, and all sources otherwise.
pub fn open_all_row_sources<T>(sources: Vec<(Role, Option<(SourceLayout, T)>)>) -> (r: Result<
    Option<Vec<(Role, (SourceLayout, T))>>,
    ProcessError,
>)
    requires
        sources@.len() > 0,
    ensures
        (exists|k: int| 0 <= k < sources@.len() && sources@[k].1 is None) ==> r == Ok::<
            Option<Vec<(Role, (SourceLayout, T))>>,
            ProcessError,
        >(None),
        (forall|k: int| 0 <= k < sources@.len() ==> sources@[k].1 is Some) ==> {
            &&& (forall|k: int|
                0 <= k < sources@.len() ==> !layout_size_differs(sources@, k)) ==> (r matches Ok(
                Some(v),
            ) && v@ == sources@.map_values(
                |e: (Role, Option<(SourceLayout, T)>)| (e.0, e.1.unwrap()),
            ))
            &&& (exists|k: int| 0 <= k < sources@.len() && layout_size_differs(sources@, k)) ==> (
            exists|k: int|
                #![trigger layout_size_differs(sources@, k)]
                0 <= k < sources@.len() && layout_size_differs(sources@, k) && (forall|i: int|
                    0 <= i < k ==> !layout_size_differs(sources@, i)) && is_invalid_input(
                    r,
                    role_size_message(
                        sources@[k].0,
                        sources@[k].1.unwrap().0.width,
                        sources@[k].1.unwrap().0.height,
                        sources@[0].1.unwrap().0.width,
                        sources@[0].1.unwrap().0.height,
                    ),
                ))
        },
{
    let n = sources.len();
    let mut k: usize = 0;
    while k < n
        invariant
            n == sources@.len(),
            k <= n,
            forall|i: int| 0 <= i < k ==> sources@[i].1 is Some,
        decreases n - k,
    {
        if sources[k].1.is_none() {
            return Ok(None);
        }
        k = k + 1;
    }
    let (width, height) = match &sources[0].1 {
        Some(s) => (s.0.width, s.0.height),
        None => return Ok(None),
    };
    let mut k: usize = 0;
    while k < n
        invariant
            n == sources@.len(),
            k <= n,
            forall|i: int| 0 <= i < n ==> sources@[i].1 is Some,
            width == sources@[0].1.unwrap().0.width,
            height == sources@[0].1.unwrap().0.height,
            forall|i: int| 0 <= i < k ==> !layout_size_differs(sources@, i),
        decreases n - k,
    {
        let (w, h) = match &sources[k].1 {
            Some(s) => (s.0.width, s.0.height),
            None => return Ok(None),
        };
        if w != width || h != height {
            let e = role_size_error(sources[k].0, w, h, width, height);
            assert(layout_size_differs(sources@, k as int));
            return Err(e);
        }
        k = k + 1;
    }
    let ghost original = sources@;
    let mut sources = sources;
    let mut out: Vec<(Role, (SourceLayout, T))> = Vec::new();
    while sources.len() > 0
        invariant
            forall|i: int| 0 <= i < sources@.len() ==> sources@[i].1 is Some,
            out@.len() + sources@.len() == original.len(),
            forall|i: int| 0 <= i < sources@.len() ==> sources@[i] == original[out@.len() + i],
            forall|i: int|
                0 <= i < out@.len() ==> out@[i] == (original[i].0, original[i].1.unwrap()),
        decreases sources@.len(),
    {
        let (role, opened) = sources.remove(0);
        match opened {
            Some(s) => out.push((role, s)),
            None => return Ok(None),
        }
    }
    proof {
        assert(out@ =~= original.map_values(
            |e: (Role, Option<(SourceLayout, T)>)| (e.0, e.1.unwrap()),
        ));
    }
    Ok(Some(out))
}

/// Fills one role's channel of the output row being assembled by a
/// streamed concatenation, from that role's source's next decoded row
/// (`None` if the source has run out): output pixel `x` gets the sample the
/// role reads from pixel `x` of the row. An error, leaving the output row
/// as it was, if the source has run out or has nothing for the role.
pub fn stream_concat(
    out_row: &mut Vec<u8>,
    out_channels: usize,
    role: Role,
    layout: SourceLayout,
    row: Option<Vec<u8>>,
) -> (r: Result<(), ProcessError>)
    requires
        layout.wf(),
        spec_role_index(role) < out_channels,
        row is Some ==> (row.unwrap()@.len() as int / (layout.channels as int)) * out_channels <= old(
            out_row,
        )@.len(),
    ensures
        row is None ==> is_invalid_input(r, source_ended_message(role)) && final(out_row)@ == old(
            out_row,
        )@,
        (row is Some && spec_extract_role(layout, row.unwrap()@, role) is None) ==> is_invalid_input(
            r,
            no_alpha_message(),
        ) && final(out_row)@ == old(out_row)@,
        (row is Some && spec_extract_role(layout, row.unwrap()@, role) is Some) ==> r is Ok
            && final(out_row)@ == spec_place(
            old(out_row)@,
            out_channels as int,
            spec_role_index(role),
            spec_extract_role(layout, row.unwrap()@, role).unwrap(),
        ),
{
    let row = match row {
        Some(row) => row,
        None => {
            let mut m = "`--".to_owned();
            m.append(role.flag_name());
            m.append(
                "` source ended before the others (all channel sources must be the same size)",
            );
            return Err(ProcessError::InvalidInput(m));
        },
    };
    let values = match extract_role(layout, row.as_slice(), role) {
        Ok(values) => values,
        Err(e) => return Err(e),
    };
    let index = role_index(role);
    let n = values.len();
    let ghost start = out_row@;
    let len = out_row.len();
    let oc = out_channels;
    let mut x: usize = 0;
    assert forall|j: int| 0 <= j < start.len() implies #[trigger] (j / (oc as int)) >= 0 by {
        vstd::arithmetic::div_mod::lemma_div_pos_is_pos(j, oc as int);
    }
    while x < n
        invariant
            n == values@.len(),
            n * oc <= start.len(),
            len == start.len(),
            index < oc,
            index == spec_role_index(role),
            x <= n,
            out_row@.len() == start.len(),
            forall|j: int| 0 <= j < start.len() ==> #[trigger] (j / (oc as int)) >= 0,
            forall|j: int|
                0 <= j < start.len() ==> #[trigger] out_row@[j] == if j % (oc as int) == index
                    && j / (oc as int) < x {
                    values@[j / (oc as int)]
                } else {
                    start[j]
                },
        decreases n - x,
    {
        assert(x * oc + index < n * oc) by (nonlinear_arith)
            requires
                x < n,
                index < oc,
        {
            assert((x + 1) * oc <= n * oc);
        }
        let p = x * oc + index;
        let ghost prev = out_row@;
        out_row.set(p, values[x]);
        proof {
            vstd::arithmetic::div_mod::lemma_fundamental_div_mod_converse(
                p as int,
                oc as int,
                x as int,
                index as int,
            );
            assert forall|j: int| 0 <= j < start.len() implies #[trigger] out_row@[j] == if j % (
            oc as int) == index && j / (oc as int) < x + 1 {
                values@[j / (oc as int)]
            } else {
                start[j]
            } by {
                if j != p {
                    vstd::arithmetic::div_mod::lemma_fundamental_div_mod(j, oc as int);
                    if j % (oc as int) == index && j / (oc as int) == x {
                        assert(j == (oc as int) * x + index);
                        assert((oc as int) * x == x * (oc as int)) by (nonlinear_arith);
                        assert(false);
                    }
                    assert(out_row@[j] == prev[j]);
                }
            }
        }
        x = x + 1;
    }
    proof {
        let v = spec_extract_role(layout, row@, role).unwrap();
        assert(values@ == v);
        assert(out_row@ =~= spec_place(start, oc as int, index as int, v));
    }
    Ok(())
}

} // verus!

verus! {

/// A channel source decoded in full and normalized to 8-bit RGBA, with what
/// its original color type was.
#[derive(Debug, Clone)]
pub struct DecodedSource {
    pub role: Role,
    pub is_gray: bool,
    pub has_alpha: bool,
    pub image: RgbaBuffer,
}

/// Whether the `k`-th decoded source has a different size from the first.
pub open spec fn image_size_differs(sources: Seq<DecodedSource>, k: int) -> bool {
    sources[k].image.width != sources[0].image.width || sources[k].image.height
        != sources[0].image.height
}

/// Whether the `k`-th decoded source has nothing for its role.
pub open spec fn lacks_role_channel(sources: Seq<DecodedSource>, k: int) -> bool {
    spec_role_channel(sources[k].is_gray, sources[k].has_alpha, sources[k].role) is None
}

/// Byte `j` of the RGBA output of a buffered concatenation after the first
/// `k` sources have been applied: the byte that the last of them whose role
/// fills `j`'s channel reads from the same pixel, or `0` if none fills it.
pub open spec fn concat_byte(sources: Seq<DecodedSource>, k: nat, j: int) -> u8
    decreases k,
{
    if k == 0 {
        0
    } else {
        let s = sources[k - 1];
        if spec_role_index(s.role) == j % 4 {
            s.image.pixels@[(j / 4) * 4 + spec_role_channel(s.is_gray, s.has_alpha, s.role).unwrap()]
        } else {
            concat_byte(sources, (k - 1) as nat, j)
        }
    }
}

/// Concatenates fully decoded channel sources into one RGBA image: each
/// output channel takes the channel its role reads (see
/// `spec_role_channel`) of the last source with that role, and is `0` where
/// no source has the role. An error naming the first source whose size
/// differs from the first one's, or else the error for the first source
/// with nothing for its role.
pub fn buffered_concat(sources: &Vec<DecodedSource>) -> (r: Result<RgbaBuffer, ProcessError>)
    requires
        sources@.len() > 0,
        forall|k: int| 0 <= k < sources@.len() ==> (#[trigger] sources@[k]).image.wf(),
    ensures
        (exists|k: int| 0 <= k < sources@.len() && image_size_differs(sources@, k)) ==> (exists|
            k: int,
        |
            #![trigger image_size_differs(sources@, k)]
            0 <= k < sources@.len() && image_size_differs(sources@, k) && (forall|i: int|
                0 <= i < k ==> !image_size_differs(sources@, i)) && is_invalid_input(
                r,
                role_size_message(
                    sources@[k].role,
                    sources@[k].image.width,
                    sources@[k].image.height,
                    sources@[0].image.width,
                    sources@[0].image.height,
                ),
            )),
        (forall|k: int| 0 <= k < sources@.len() ==> !image_size_differs(sources@, k)) && (exists|
            k: int,
        | 0 <= k < sources@.len() && lacks_role_channel(sources@, k)) ==> is_invalid_input(
            r,
            no_alpha_message(),
        ),
        (forall|k: int| 0 <= k < sources@.len() ==> !image_size_differs(sources@, k)) && (forall|
            k: int,
        | 0 <= k < sources@.len() ==> !lacks_role_channel(sources@, k)) ==> (r matches Ok(out)
            && out.wf() && out.width == sources@[0].image.width && out.height
            == sources@[0].image.height && (forall|j: int|
            0 <= j < out.pixels@.len() ==> #[trigger] out.pixels@[j] == concat_byte(
                sources@,
                sources@.len(),
                j,
            ))),
{
    let n = sources.len();
    let width = sources[0].image.width;
    let height = sources[0].image.height;
    let mut k: usize = 0;
    while k < n
        invariant
            n == sources@.len(),
            k <= n,
            width == sources@[0].image.width,
            height == sources@[0].image.height,
            forall|i: int| 0 <= i < k ==> !image_size_differs(sources@, i),
        decreases n - k,
    {
        let s = &sources[k];
        if s.image.width != width || s.image.height != height {
            let e = role_size_error(s.role, s.image.width, s.image.height, width, height);
            let r: Result<RgbaBuffer, ProcessError> = Err(e);
            assert(image_size_differs(sources@, k as int));
            assert(is_invalid_input(
                r,
                role_size_message(
                    sources@[k as int].role,
                    sources@[k as int].image.width,
                    sources@[k as int].image.height,
                    sources@[0].image.width,
                    sources@[0].image.height,
                ),
            ));
            return r;
        }
        k = k + 1;
    }
    let mut channels: Vec<usize> = Vec::new();
    let mut k: usize = 0;
    while k < n
        invariant
            n == sources@.len(),
            k <= n,
            channels@.len() == k,
            forall|i: int| 0 <= i < n ==> !image_size_differs(sources@, i),
            forall|i: int| 0 <= i < k ==> !lacks_role_channel(sources@, i),
            forall|i: int| 0 <= i < k ==> channels@[i] < 4,
            forall|i: int|
                0 <= i < k ==> channels@[i] == spec_role_channel(
                    sources@[i].is_gray,
                    sources@[i].has_alpha,
                    sources@[i].role,
                ).unwrap(),
        decreases n - k,
    {
        let s = &sources[k];
        match role_channel(s.is_gray, s.has_alpha, s.role) {
            Ok(c) => channels.push(c),
            Err(e) => {
                assert(lacks_role_channel(sources@, k as int));
                return Err(e);
            },
        }
        k = k + 1;
    }
    let len = sources[0].image.pixels.len();
    let mut out: Vec<u8> = vec![0u8; len];
    let mut k: usize = 0;
    while k < n
        invariant
            n == sources@.len(),
            k <= n,
            channels@.len() == n,
            len == sources@[0].image.pixels@.len(),
            len == width as int * height as int * 4,
            forall|i: int| 0 <= i < n ==> !image_size_differs(sources@, i),
            forall|i: int| 0 <= i < n ==> !lacks_role_channel(sources@, i),
            forall|i: int| 0 <= i < n ==> (#[trigger] sources@[i]).image.wf(),
            forall|i: int|
                0 <= i < n ==> #[trigger] channels@[i] == spec_role_channel(
                    sources@[i].is_gray,
                    sources@[i].has_alpha,
                    sources@[i].role,
                ).unwrap() && channels@[i] < 4,
            width == sources@[0].image.width,
            height == sources@[0].image.height,
            out@.len() == len,
            forall|j: int| 0 <= j < len ==> #[trigger] out@[j] == concat_byte(sources@, k as nat, j),
        decreases n - k,
    {
        let s = &sources[k];
        let index = role_index(s.role);
        let c = channels[k];
        let ghost before = out@;
        assert(!image_size_differs(sources@, k as int));
        assert(sources@[k as int].image.wf());
        assert(s.image.pixels@.len() == len);
        let mut base: usize = 0;
        while base < len
            invariant
                len == s.image.pixels@.len(),
                len % 4 == 0,
                base % 4 == 0,
                base <= len,
                index < 4,
                c < 4,
                out@.len() == len,
                forall|j: int|
                    0 <= j < len ==> #[trigger] out@[j] == if j % 4 == index && j < base {
                        s.image.pixels@[(j / 4) * 4 + c]
                    } else {
                        before[j]
                    },
            decreases len - base,
        {
            out.set(base + index, s.image.pixels[base + c]);
            base = base + 4;
        }
        proof {
            assert forall|j: int| 0 <= j < len implies #[trigger] out@[j] == concat_byte(
                sources@,
                (k + 1) as nat,
                j,
            ) by {
                assert(sources@[k as int] == *s);
            }
        }
        k = k + 1;
    }
    Ok(RgbaBuffer { width, height, pixels: out })
}

/// Sample `c` (red, green, blue, alpha) of pixel `x` of a decoded row of
/// `layout`, as the row looks once normalized to 8-bit RGBA: a gray sample
/// fills red, green and blue, and a pixel without alpha is opaque.
pub open spec fn rgba_sample(layout: SourceLayout, row: Seq<u8>, x: int, c: int) -> u8 {
    let p = x * layout.channels;
    if c == 3 {
        if layout.has_alpha {
            row[p + layout.channels - 1]
        } else {
            255
        }
    } else if layout.is_gray {
        row[p]
    } else {
        row[p + c]
    }
}

/// The streamed and the buffered concatenation pick a role's channel alike:
/// for each pixel of a decoded row, the sample the streamed path takes for a
/// role is the sample of the channel the buffered path reads
/// (`spec_role_channel`) of the same pixel normalized to RGBA.
pub proof fn lemma_stream_and_buffered_pick_alike(layout: SourceLayout, row: Seq<u8>, role: Role, x: int)
    requires
        layout.wf(),
        spec_role_channel(layout.is_gray, layout.has_alpha, role) is Some,
        0 <= x < row.len() as int / (layout.channels as int),
    ensures
        spec_extract_role(layout, row, role).unwrap()[x] == rgba_sample(
            layout,
            row,
            x,
            spec_role_channel(layout.is_gray, layout.has_alpha, role).unwrap(),
        ),
{
}

/// Concatenating a decoded row with itself in every role, red, green, blue
/// then alpha, reproduces the row: for an RGBA source each role reads its own
/// channel back into the same place.
pub proof fn lemma_stream_concat_reproduces_rgba(layout: SourceLayout, row: Seq<u8>, start: Seq<u8>)
    requires
        layout.wf(),
        layout.channels == 4,
        row.len() % 4 == 0,
        start.len() == row.len(),
    ensures
        spec_place(
            spec_place(
                spec_place(
                    spec_place(start, 4, 0, spec_extract_role(layout, row, Role::Red).unwrap()),
                    4,
                    1,
                    spec_extract_role(layout, row, Role::Green).unwrap(),
                ),
                4,
                2,
                spec_extract_role(layout, row, Role::Blue).unwrap(),
            ),
            4,
            3,
            spec_extract_role(layout, row, Role::Alpha).unwrap(),
        ) == row,
{
    let r = spec_extract_role(layout, row, Role::Red).unwrap();
    let g = spec_extract_role(layout, row, Role::Green).unwrap();
    let b = spec_extract_role(layout, row, Role::Blue).unwrap();
    let a = spec_extract_role(layout, row, Role::Alpha).unwrap();
    let out = spec_place(spec_place(spec_place(spec_place(start, 4, 0, r), 4, 1, g), 4, 2, b), 4, 3, a);
    assert forall|j: int| 0 <= j < row.len() implies out[j] == row[j] by {
        assert(j / 4 < row.len() / 4);
        assert((j / 4) * 4 + j % 4 == j);
    }
    assert(out =~= row);
}

/// Concatenating a grayscale row into red, green and blue fills every
/// channel of output pixel `x` with the gray sample of pixel `x`.
pub proof fn lemma_stream_concat_gray_fills_rgb(layout: SourceLayout, row: Seq<u8>, start: Seq<u8>)
    requires
        layout.wf(),
        layout.channels == 1,
        start.len() == 3 * row.len(),
    ensures
        ({
            let out = spec_place(
                spec_place(
                    spec_place(start, 3, 0, spec_extract_role(layout, row, Role::Red).unwrap()),
                    3,
                    1,
                    spec_extract_role(layout, row, Role::Green).unwrap(),
                ),
                3,
                2,
                spec_extract_role(layout, row, Role::Blue).unwrap(),
            );
            &&& out.len() == 3 * row.len()
            &&& forall|j: int| 0 <= j < out.len() ==> #[trigger] out[j] == row[j / 3]
        }),
{
    let r = spec_extract_role(layout, row, Role::Red).unwrap();
    let g = spec_extract_role(layout, row, Role::Green).unwrap();
    let b = spec_extract_role(layout, row, Role::Blue).unwrap();
    let out = spec_place(spec_place(spec_place(start, 3, 0, r), 3, 1, g), 3, 2, b);
    assert forall|j: int| 0 <= j < out.len() implies #[trigger] out[j] == row[j / 3] by {
        assert(j / 3 < row.len());
        assert(0 <= j % 3 < 3);
    }
}

} // verus!

verus! {

/// How the rows of a streamed concatenation are encoded: RGBA when all
/// four channels are produced, RGB otherwise.
pub fn concat_row_encoding(format: TextureFormat, out_channels: usize) -> (r: RowEncoding)
    ensures
        r == match format {
            TextureFormat::Png => RowEncoding::Png(
                if out_channels == 4 {
                    PngColor::Rgba
                } else {
                    PngColor::Rgb
                },
            ),
            TextureFormat::Tiff => RowEncoding::Tiff(
                if out_channels == 4 {
                    TiffColor::Rgba8
                } else {
                    TiffColor::Rgb8
                },
            ),
        },
{
    match format {
        TextureFormat::Png => RowEncoding::Png(
            if out_channels == 4 {
                PngColor::Rgba
            } else {
                PngColor::Rgb
            },
        ),
        TextureFormat::Tiff => RowEncoding::Tiff(
            if out_channels == 4 {
                TiffColor::Rgba8
            } else {
                TiffColor::Rgb8
            },
        ),
    }
}

} // verus!
