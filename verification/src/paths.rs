//! Path commands and vertices.

use vstd::prelude::*;

verus! {

/// The orientation of a polygon.
#[derive(Clone, Copy, Debug, PartialEq, Eq, Hash)]
pub enum PathOrientation {
    /// The vertices run clockwise.
    Clockwise,
    /// The vertices run counter-clockwise.
    CounterClockwise,
}

/// What a vertex of a path does.
#[derive(Clone, Copy, Debug, Default, PartialEq, Eq, Hash)]
pub enum PathCommand {
    /// Ends the path.
    Stop,
    /// Starts a sub-path at the vertex without drawing.
    #[default]
    MoveTo,
    /// Draws a line from the current point to the vertex.
    LineTo,
    /// Closes the sub-path with a line back to its start.
    Close,
}

/// A point of a path with the command that applies to it.
#[derive(Clone, Copy, Debug, Default, PartialEq)]
pub struct Vertex<T> {
    /// Horizontal position.
    pub x: T,
    /// Vertical position.
    pub y: T,
    /// The command.
    pub cmd: PathCommand,
}

impl<T> Vertex<T> {
    /// Creates a vertex at `(x, y)` with the given command.
    pub fn new(x: T, y: T, command: PathCommand) -> (v: Self)
        ensures
            v == (Vertex { x, y, cmd: command }),
    {
        Self { x, y, cmd: command }
    }

    /// Creates a vertex at `(x, y)` that ends the path.
    pub fn xy(x: T, y: T) -> (v: Self)
        ensures
            v == (Vertex { x, y, cmd: PathCommand::Stop }),
    {
        Self { x, y, cmd: PathCommand::Stop }
    }

    /// Creates a vertex that starts a sub-path at `(x, y)`.
    pub fn move_to(x: T, y: T) -> (v: Self)
        ensures
            v == (Vertex { x, y, cmd: PathCommand::MoveTo }),
    {
        Self { x, y, cmd: PathCommand::MoveTo }
    }

    /// Creates a vertex that draws a line to `(x, y)`.
    pub fn line_to(x: T, y: T) -> (v: Self)
        ensures
            v == (Vertex { x, y, cmd: PathCommand::LineTo }),
    {
        Self { x, y, cmd: PathCommand::LineTo }
    }

    /// Creates a vertex at `(x, y)` that closes the sub-path.
    pub fn close_polygon(x: T, y: T) -> (v: Self)
        ensures
            v == (Vertex { x, y, cmd: PathCommand::Close }),
    {
        Self { x, y, cmd: PathCommand::Close }
    }
}

/// The commands of a sequence of vertices.
pub open spec fn commands<T>(vertices: Seq<Vertex<T>>) -> Seq<PathCommand> {
    Seq::new(vertices.len(), |i: int| vertices[i].cmd)
}

/// The index of the last `MoveTo` before index `i`, or -1 if there is none.
pub open spec fn last_move(cmds: Seq<PathCommand>, i: int) -> int
    decreases i,
{
    if i <= 0 || i > cmds.len() {
        -1
    } else if cmds[i - 1] == PathCommand::MoveTo {
        i - 1
    } else {
        last_move(cmds, i - 1)
    }
}

/// The sub-paths among the first `n` commands, each as the index of the `MoveTo`
/// that starts it and the index of its last vertex.
///
/// A sub-path holds the vertices from a `MoveTo` up to the next `MoveTo`. A
/// `MoveTo` that no other vertex follows starts no sub-path, and vertices before
/// the first `MoveTo` belong to none.
pub open spec fn subpaths(cmds: Seq<PathCommand>, n: int) -> Seq<(usize, usize)>
    decreases n,
{
    if n <= 0 || n > cmds.len() {
        Seq::empty()
    } else {
        let before = subpaths(cmds, n - 1);
        let i = n - 1;
        let m = last_move(cmds, i);
        if cmds[i] == PathCommand::MoveTo || m < 0 {
            before
        } else if m == i - 1 {
            before.push((m as usize, i as usize))
        } else {
            before.drop_last().push((m as usize, i as usize))
        }
    }
}

impl<T> Vertex<T> {
    /// Returns the sub-paths of a path, each as the index of the `MoveTo` that
    /// starts it and the index of its last vertex.
    pub fn split(vertices: &[Vertex<T>]) -> (pairs: Vec<(usize, usize)>)
        ensures
            pairs@ == subpaths(commands(vertices@), vertices@.len() as int),
    {
        let ghost cmds = commands(vertices@);
        let mut start: Option<usize> = None;
        let mut end: Option<usize> = None;
        let mut pairs: Vec<(usize, usize)> = Vec::new();
        let n = vertices.len();
        let mut i: usize = 0;
        while i < n
            invariant
                i <= n,
                n == vertices@.len(),
                cmds == commands(vertices@),
                start == (if last_move(cmds, i as int) >= 0 {
                    Some(last_move(cmds, i as int) as usize)
                } else {
                    None
                }),
                end == (if 0 <= last_move(cmds, i as int) < i - 1 {
                    Some((i - 1) as usize)
                } else {
                    None
                }),
                last_move(cmds, i as int) < i,
                subpaths(cmds, i as int) == (match end {
                    Some(e) => pairs@.push((last_move(cmds, i as int) as usize, e)),
                    None => pairs@,
                }),
            decreases n - i,
        {
            let cmd = vertices[i].cmd;
            assert(cmd == cmds[i as int]);
            match (start, end) {
                (None, None) => match cmd {
                    PathCommand::MoveTo => {
                        start = Some(i);
                    },
                    PathCommand::LineTo | PathCommand::Close | PathCommand::Stop => {},
                },
                (Some(_), None) => match cmd {
                    PathCommand::MoveTo => {
                        start = Some(i);
                    },
                    PathCommand::LineTo => {
                        end = Some(i);
                    },
                    PathCommand::Close | PathCommand::Stop => {
                        end = Some(i);
                    },
                },
                (Some(s), Some(e)) => match cmd {
                    PathCommand::MoveTo => {
                        pairs.push((s, e));
                        start = Some(i);
                        end = None;
                    },
                    PathCommand::LineTo | PathCommand::Close | PathCommand::Stop => {
                        proof {
                            assert(pairs@.push((s, e)).drop_last() =~= pairs@);
                        }
                        end = Some(i);
                    },
                },
                (None, Some(_)) => {
                    assert(false);
                },
            }
            i = i + 1;
        }
        if let (Some(s), Some(e)) = (start, end) {
            pairs.push((s, e));
        }
        pairs
    }
}

/// The vertices of a path after its last vertex has been repeated with the
/// command that closes the sub-path, if the last vertex draws a line.
pub open spec fn with_closing<T>(vertices: Seq<Vertex<T>>) -> Seq<Vertex<T>> {
    if vertices.len() > 0 && vertices.last().cmd == PathCommand::LineTo {
        vertices.push(Vertex { cmd: PathCommand::Close, ..vertices.last() })
    } else {
        vertices
    }
}

/// Closes the last sub-path of a path: if its last vertex draws a line, the
/// vertex is repeated with the command that closes the sub-path.
pub fn close_polygon<T: Copy>(vertices: &mut Vec<Vertex<T>>)
    ensures
        final(vertices)@ == with_closing(old(vertices)@),
{
    let n = vertices.len();
    if n == 0 {
        return ;
    }
    let last = vertices[n - 1];
    match last.cmd {
        PathCommand::LineTo => {
            vertices.push(Vertex::close_polygon(last.x, last.y));
        },
        _ => {},
    }
}

/// The vertex at index `i` after the vertices from index `s` to index `e` have
/// been put in reverse order: the positions are reversed, and so are the
/// commands, but those of the two ends stay where they are.
pub open spec fn inverted_at<T>(vertices: Seq<Vertex<T>>, s: int, e: int, i: int) -> Vertex<T> {
    if s <= i <= e {
        Vertex {
            cmd: if i == s || i == e {
                vertices[i].cmd
            } else {
                vertices[s + e - i].cmd
            },
            ..vertices[s + e - i]
        }
    } else {
        vertices[i]
    }
}

/// Puts the vertices of a polygon, those from index `s` to index `e` of a path,
/// in reverse order, and leaves the commands of its two ends where they are.
pub fn invert_polygon<T: Copy>(vertices: &mut Vec<Vertex<T>>, s: usize, e: usize)
    requires
        s <= e < old(vertices)@.len(),
    ensures
        final(vertices)@.len() == old(vertices)@.len(),
        forall|i: int|
            0 <= i < old(vertices)@.len() ==> #[trigger] final(vertices)@[i] == inverted_at(
                old(vertices)@,
                s as int,
                e as int,
                i,
            ),
{
    let ghost start = vertices@;
    let first_cmd = vertices[s].cmd;
    let last_cmd = vertices[e].cmd;
    let mut i = s;
    let mut j = e;
    while i < j
        invariant
            s <= i,
            j <= e < start.len(),
            i + j == s + e,
            i <= j + 1,
            vertices@.len() == start.len(),
            forall|k: int|
                0 <= k < start.len() ==> #[trigger] vertices@[k] == (if (s <= k < i) || (j < k <= e) {
                    start[s + e - k]
                } else {
                    start[k]
                }),
        decreases
                (if j >= i {
                    j - i + 1
                } else {
                    0
                }),
    {
        let a = vertices[i];
        let b = vertices[j];
        vertices.set(i, b);
        vertices.set(j, a);
        i = i + 1;
        j = j - 1;
    }
    let mut a = vertices[s];
    a.cmd = first_cmd;
    vertices.set(s, a);
    let mut b = vertices[e];
    b.cmd = last_cmd;
    vertices.set(e, b);
}

} // verus!
