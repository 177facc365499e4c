use vstd::prelude::*;

verus! {

use crate::textures::TextureRegistry;

/// One command of a frame's draw command list, reduced to what the renderer
/// decides on: how many elements of the shared element buffer it covers, and
/// the id of the texture it samples (`None` when the command's texture
/// handle carries a raw pointer instead of an id).
#[derive(Clone, Copy, Debug)]
pub struct DrawCommand {
    pub elem_count: u32,
    pub texture_id: Option<i32>,
}

/// One draw call to issue: the half-open element range `start..end` of the
/// shared element buffer, sampled from the texture slot at `tex_index`.
#[derive(Clone, Copy, Debug, PartialEq, Eq)]
pub struct DrawCall {
    pub start: u32,
    pub end: u32,
    pub tex_index: usize,
}

/// Why a command list cannot be rendered.
#[derive(Clone, Copy, Debug, PartialEq, Eq)]
pub enum CommandError {
    /// A non-empty command's texture handle holds no id.
    MissingTextureId,
    /// A non-empty command names a texture id outside the registry.
    UnknownTextureId,
}

/// What one command at element offset `start` asks of the renderer:
/// nothing for an empty command, a draw call for one whose texture id
/// resolves in a registry of `tex_count` slots, an error otherwise.
pub open spec fn command_outcome(c: DrawCommand, start: u32, tex_count: int) -> Result<
    Option<DrawCall>,
    CommandError,
> {
    if c.elem_count < 1 {
        Ok(None)
    } else {
        match c.texture_id {
            None => Err(CommandError::MissingTextureId),
            Some(id) => if 1 <= id && id <= tex_count {
                Ok(
                    Some(
                        DrawCall {
                            start,
                            end: (start + c.elem_count) as u32,
                            tex_index: (id - 1) as usize,
                        },
                    ),
                )
            } else {
                Err(CommandError::UnknownTextureId)
            },
        }
    }
}

/// Decides what the renderer does with one command whose element range
/// begins at `start`: skip it, issue a draw call, or reject the frame.
pub fn plan_command(start: u32, cmd: &DrawCommand, textures: &TextureRegistry) -> (r: Result<
    Option<DrawCall>,
    CommandError,
>)
    requires
        start + cmd.elem_count <= u32::MAX,
    ensures
        r == command_outcome(*cmd, start, textures.spec_len()),
{
    if cmd.elem_count < 1 {
        return Ok(None);
    }
    match cmd.texture_id {
        None => Err(CommandError::MissingTextureId),
        Some(id) => match textures.find_res(id) {
            Some(idx) => Ok(
                Some(DrawCall { start, end: start + cmd.elem_count, tex_index: idx }),
            ),
            None => Err(CommandError::UnknownTextureId),
        },
    }
}

/// Total number of elements that the commands of `cmds` cover together.
pub open spec fn total_elems(cmds: Seq<DrawCommand>) -> int
    decreases cmds.len(),
{
    if cmds.len() == 0 {
        0
    } else {
        cmds[0].elem_count + total_elems(cmds.drop_first())
    }
}

proof fn lemma_total_elems_nonneg(cmds: Seq<DrawCommand>)
    ensures
        total_elems(cmds) >= 0,
    decreases cmds.len(),
{
    if cmds.len() > 0 {
        lemma_total_elems_nonneg(cmds.drop_first());
    }
}

/// Peels the command at `i` off the total of the commands from `i` on.
proof fn lemma_total_elems_split(cmds: Seq<DrawCommand>, i: int)
    requires
        0 <= i < cmds.len(),
    ensures
        total_elems(cmds.skip(i)) == cmds[i].elem_count + total_elems(cmds.skip(i + 1)),
{
    assert(cmds.skip(i).drop_first() =~= cmds.skip(i + 1));
    assert(cmds.skip(i)[0] == cmds[i]);
}

/// Whether the element ranges of a whole command list fit the 32-bit offsets
/// of the shared element buffer. The host checks this before it plans a
/// frame.
pub fn commands_fit(cmds: &Vec<DrawCommand>) -> (fits: bool)
    ensures
        fits <==> total_elems(cmds@) <= u32::MAX,
{
    let mut acc: u32 = 0;
    let mut i: usize = 0;
    proof {
        assert(cmds@.skip(0) =~= cmds@);
    }
    while i < cmds.len()
        invariant
            0 <= i <= cmds@.len(),
            total_elems(cmds@) == acc + total_elems(cmds@.skip(i as int)),
        decreases cmds@.len() - i,
    {
        proof {
            lemma_total_elems_split(cmds@, i as int);
            lemma_total_elems_nonneg(cmds@.skip(i as int + 1));
        }
        if cmds[i].elem_count > u32::MAX - acc {
            return false;
        }
        acc = acc + cmds[i].elem_count;
        i = i + 1;
    }
    proof {
        assert(cmds@.skip(i as int) =~= Seq::<DrawCommand>::empty());
    }
    true
}

/// The draw calls for the commands from index `i` on, the range of the
/// first one beginning at element offset `start`: empty commands are
/// skipped, every other command contributes one call right after its
/// predecessor, and the first unresolvable command rejects the frame.
pub open spec fn plan_from(
    cmds: Seq<DrawCommand>,
    i: int,
    start: u32,
    tex_count: int,
) -> Result<Seq<DrawCall>, CommandError>
    decreases cmds.len() - i,
{
    if i < 0 || i >= cmds.len() {
        Ok(Seq::empty())
    } else {
        match command_outcome(cmds[i], start, tex_count) {
            Err(e) => Err(e),
            Ok(None) => plan_from(cmds, i + 1, start, tex_count),
            Ok(Some(call)) => match plan_from(cmds, i + 1, call.end, tex_count) {
                Err(e) => Err(e),
                Ok(rest) => Ok(seq![call] + rest),
            },
        }
    }
}

/// The draw calls for a whole command list against a registry of
/// `tex_count` texture slots, the first range beginning at element 0.
pub open spec fn plan_spec(cmds: Seq<DrawCommand>, tex_count: int) -> Result<
    Seq<DrawCall>,
    CommandError,
> {
    plan_from(cmds, 0, 0, tex_count)
}

/// Plans a frame: turns the command list into the draw calls to issue, in
/// command order, or reports the first command whose texture cannot be
/// resolved in `textures`.
pub fn plan_draws(cmds: &Vec<DrawCommand>, textures: &TextureRegistry) -> (r: Result<
    Vec<DrawCall>,
    CommandError,
>)
    requires
        total_elems(cmds@) <= u32::MAX,
    ensures
        (match r {
            Ok(calls) => plan_spec(cmds@, textures.spec_len()) == Ok::<_, CommandError>(calls@),
            Err(e) => plan_spec(cmds@, textures.spec_len()) == Err::<Seq<DrawCall>, _>(e),
        }),
{
    let ghost tex_count: int = textures.spec_len();
    let mut calls: Vec<DrawCall> = Vec::new();
    let mut start: u32 = 0;
    let mut i: usize = 0;
    proof {
        assert(cmds@.skip(0) =~= cmds@);
        if plan_from(cmds@, 0, 0, tex_count) is Ok {
            assert(calls@ + plan_from(cmds@, 0, 0, tex_count)->Ok_0 =~= plan_from(
                cmds@,
                0,
                0,
                tex_count,
            )->Ok_0);
        }
    }
    while i < cmds.len()
        invariant
            0 <= i <= cmds@.len(),
            tex_count == textures.spec_len(),
            start + total_elems(cmds@.skip(i as int)) <= u32::MAX,
            (match plan_from(cmds@, i as int, start, tex_count) {
                Ok(rest) => plan_spec(cmds@, tex_count) == Ok::<_, CommandError>(calls@ + rest),
                Err(e) => plan_spec(cmds@, tex_count) == Err::<Seq<DrawCall>, _>(e),
            }),
        decreases cmds@.len() - i,
    {
        proof {
            lemma_total_elems_split(cmds@, i as int);
            lemma_total_elems_nonneg(cmds@.skip(i as int + 1));
        }
        match plan_command(start, &cmds[i], textures) {
            Err(e) => {
                return Err(e);
            },
            Ok(None) => {
                i = i + 1;
            },
            Ok(Some(call)) => {
                proof {
                    assert(calls@.push(call) =~= calls@ + seq![call]);
                    if plan_from(cmds@, i as int + 1, call.end, tex_count) is Ok {
                        let rest = plan_from(cmds@, i as int + 1, call.end, tex_count)->Ok_0;
                        assert(calls@ + (seq![call] + rest) =~= (calls@ + seq![call]) + rest);
                    }
                }
                calls.push(call);
                start = call.end;
                i = i + 1;
            },
        }
    }
    proof {
        assert(plan_from(cmds@, i as int, start, tex_count) == Ok::<Seq<DrawCall>, CommandError>(
            Seq::empty(),
        ));
        assert(calls@ + Seq::<DrawCall>::empty() =~= calls@);
    }
    Ok(calls)
}

/// Whether one command can be rendered against `tex_count` texture slots:
/// it is either empty or names a texture id that resolves.
pub open spec fn command_renderable(c: DrawCommand, tex_count: int) -> bool {
    ||| c.elem_count < 1
    ||| (c.texture_id matches Some(id) && 1 <= id && id <= tex_count)
}

proof fn lemma_plan_from_ok_iff(cmds: Seq<DrawCommand>, i: int, start: u32, tex_count: int)
    requires
        0 <= i,
    ensures
        plan_from(cmds, i, start, tex_count) is Ok <==> (forall|j: int|
            i <= j < cmds.len() ==> command_renderable(cmds[j], tex_count)),
    decreases cmds.len() - i,
{
    if i < cmds.len() {
        match command_outcome(cmds[i], start, tex_count) {
            Err(e) => {
                assert(!command_renderable(cmds[i], tex_count));
            },
            Ok(None) => {
                lemma_plan_from_ok_iff(cmds, i + 1, start, tex_count);
            },
            Ok(Some(call)) => {
                lemma_plan_from_ok_iff(cmds, i + 1, call.end, tex_count);
            },
        }
    }
}

/// A command list renders if and only if every command that covers at least
/// one element names a texture id that resolves in the registry: exactly
/// the ids 1 through `tex_count`.
pub proof fn lemma_plan_succeeds_iff(cmds: Seq<DrawCommand>, tex_count: int)
    ensures
        plan_spec(cmds, tex_count) is Ok <==> (forall|j: int|
            0 <= j < cmds.len() ==> command_renderable(cmds[j], tex_count)),
{
    lemma_plan_from_ok_iff(cmds, 0, 0, tex_count);
}

/// Number of commands from `i` on that cover at least one element.
pub open spec fn issued_count(cmds: Seq<DrawCommand>, i: int) -> int
    decreases cmds.len() - i,
{
    if i < 0 || i >= cmds.len() {
        0
    } else {
        (if cmds[i].elem_count >= 1 {
            1int
        } else {
            0int
        }) + issued_count(cmds, i + 1)
    }
}

proof fn lemma_plan_from_call_count(cmds: Seq<DrawCommand>, i: int, start: u32, tex_count: int)
    requires
        plan_from(cmds, i, start, tex_count) is Ok,
    ensures
        plan_from(cmds, i, start, tex_count)->Ok_0.len() == issued_count(cmds, i),
    decreases cmds.len() - i,
{
    if i < 0 || i >= cmds.len() {
    } else {
        match command_outcome(cmds[i], start, tex_count) {
            Err(e) => {
            },
            Ok(None) => {
                lemma_plan_from_call_count(cmds, i + 1, start, tex_count);
            },
            Ok(Some(call)) => {
                lemma_plan_from_call_count(cmds, i + 1, call.end, tex_count);
            },
        }
    }
}

/// A successful plan issues exactly one draw call for each command that
/// covers at least one element, in command order: pairing the calls with
/// those commands one by one is sound.
pub proof fn lemma_plan_one_call_per_command(cmds: Seq<DrawCommand>, tex_count: int)
    requires
        plan_spec(cmds, tex_count) is Ok,
    ensures
        plan_spec(cmds, tex_count)->Ok_0.len() == issued_count(cmds, 0),
{
    lemma_plan_from_call_count(cmds, 0, 0, tex_count);
}

/// Whether a run of draw calls tiles the element buffer from `start` on:
/// the first call begins at `start` and every later call begins where its
/// predecessor ended.
pub open spec fn calls_contiguous(calls: Seq<DrawCall>, start: u32) -> bool {
    &&& (calls.len() > 0 ==> calls[0].start == start)
    &&& (forall|k: int| 1 <= k < calls.len() ==> calls[k].start == calls[k - 1].end)
}

proof fn lemma_plan_from_contiguous(cmds: Seq<DrawCommand>, i: int, start: u32, tex_count: int)
    requires
        plan_from(cmds, i, start, tex_count) is Ok,
    ensures
        calls_contiguous(plan_from(cmds, i, start, tex_count)->Ok_0, start),
    decreases cmds.len() - i,
{
    if i < 0 || i >= cmds.len() {
    } else {
        match command_outcome(cmds[i], start, tex_count) {
            Err(e) => {
            },
            Ok(None) => {
                lemma_plan_from_contiguous(cmds, i + 1, start, tex_count);
            },
            Ok(Some(call)) => {
                lemma_plan_from_contiguous(cmds, i + 1, call.end, tex_count);
                let rest = plan_from(cmds, i + 1, call.end, tex_count)->Ok_0;
                let calls = plan_from(cmds, i, start, tex_count)->Ok_0;
                assert(calls =~= seq![call] + rest);
                assert(calls[0] == call);
                assert forall|k: int| 1 <= k < calls.len() implies calls[k].start == calls[k
                    - 1].end by {
                    assert(calls[k] == rest[k - 1]);
                    if k == 1 {
                        assert(rest.len() > 0 && rest[0].start == call.end);
                    } else {
                        assert(calls[k - 1] == rest[k - 2]);
                        assert(rest[k - 1].start == rest[k - 2].end);
                    }
                }
            },
        }
    }
}

/// In a successful plan the draw calls partition the used part of the
/// element buffer in command order: the first range starts at element 0 and
/// every later range starts where its predecessor ended.
pub proof fn lemma_plan_calls_contiguous(cmds: Seq<DrawCommand>, tex_count: int)
    requires
        plan_spec(cmds, tex_count) is Ok,
    ensures
        calls_contiguous(plan_spec(cmds, tex_count)->Ok_0, 0),
{
    lemma_plan_from_contiguous(cmds, 0, 0, tex_count);
}

} // verus!
