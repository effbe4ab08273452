use vstd::prelude::*;

verus! {

/// Width and height of the square grid.
pub const SIZE: usize = 4;

/// Number of cells on the grid.
pub const CELLS: usize = SIZE * SIZE;

/// The colour type of the LED strip.
#[verifier::external_type_specification]
#[verifier::reject_recursive_types(T)]
pub struct ExRgb<T>(smart_leds::RGB<T>);

/// A position on the grid: `x` counts columns from the left, `y` counts rows
/// from the bottom.
#[derive(Clone, Copy, Debug, PartialEq, Eq, Structural)]
pub struct Coord {
    pub x: usize,
    pub y: usize,
}

/// A direction in which tiles can be moved.
#[derive(Clone, Copy, Debug, PartialEq, Eq, Structural)]
pub enum Direction {
    /// Towards the top row: `y` grows.
    Up,
    /// Towards the bottom row: `y` shrinks.
    Down,
    /// Towards the left column: `x` shrinks.
    Left,
    /// Towards the right column: `x` grows.
    Right,
}

impl Direction {
    /// The direction pointing the other way.
    pub open spec fn opposite(self) -> Direction {
        match self {
            Direction::Up => Direction::Down,
            Direction::Down => Direction::Up,
            Direction::Left => Direction::Right,
            Direction::Right => Direction::Left,
        }
    }

    /// The direction pointing the other way.
    pub fn reversed(self) -> (r: Direction)
        ensures
            r == self.opposite(),
    {
        match self {
            Direction::Up => Direction::Down,
            Direction::Down => Direction::Up,
            Direction::Left => Direction::Right,
            Direction::Right => Direction::Left,
        }
    }
}

/// The coordinate with the given components, if both are on the grid.
pub open spec fn coord_at(x: int, y: int) -> Option<Coord> {
    if 0 <= x < SIZE && 0 <= y < SIZE {
        Some(Coord { x: x as usize, y: y as usize })
    } else {
        None
    }
}

/// The coordinate stored at a board index, if the index is on the grid.
pub open spec fn coord_of_index(index: int) -> Option<Coord> {
    if 0 <= index < CELLS {
        Some(Coord { x: (index % SIZE as int) as usize, y: (index / SIZE as int) as usize })
    } else {
        None
    }
}

/// The coordinate whose LED sits at position `led` of the strip.
pub open spec fn coord_of_led(led: int) -> Coord {
    let y = led / SIZE as int;
    let col = led % SIZE as int;
    Coord { x: (if y % 2 == 0 { col } else { SIZE - 1 - col }) as usize, y: y as usize }
}

impl Coord {
    /// Both components lie on the grid.
    pub open spec fn wf(self) -> bool {
        self.x < SIZE && self.y < SIZE
    }

    /// Row-major storage index.
    pub open spec fn index(self) -> int {
        self.x + SIZE * self.y
    }

    /// Position on the LED strip: even rows run left to right, odd rows right
    /// to left.
    pub open spec fn led(self) -> int {
        if self.y % 2 == 0 {
            SIZE * self.y + self.x
        } else {
            SIZE * (self.y + 1) - self.x - 1
        }
    }

    /// The adjacent coordinate one step towards `direction`, if it is on the grid.
    pub open spec fn step(self, direction: Direction) -> Option<Coord> {
        match direction {
            Direction::Up => coord_at(self.x as int, self.y + 1),
            Direction::Down => coord_at(self.x as int, self.y - 1),
            Direction::Left => coord_at(self.x - 1, self.y as int),
            Direction::Right => coord_at(self.x + 1, self.y as int),
        }
    }

    /// Number of steps from this coordinate to the edge in `direction`.
    pub open spec fn steps_to_edge(self, direction: Direction) -> int {
        match direction {
            Direction::Up => SIZE - 1 - self.y,
            Direction::Down => self.y as int,
            Direction::Left => self.x as int,
            Direction::Right => SIZE - 1 - self.x,
        }
    }

    /// Create a new Coord from x and y coordinates.
    pub fn new(x: usize, y: usize) -> (r: Option<Coord>)
        ensures
            r == coord_at(x as int, y as int),
    {
        if x < SIZE && y < SIZE {
            Some(Coord { x, y })
        } else {
            None
        }
    }

    /// Create a new Coord from an index on the board.
    pub fn from_index(index: usize) -> (r: Option<Coord>)
        ensures
            r == coord_of_index(index as int),
    {
        if index < CELLS {
            Some(Coord { x: index % SIZE, y: index / SIZE })
        } else {
            None
        }
    }

    /// Get the board index for this Coord.
    pub fn board_index(&self) -> (r: usize)
        requires
            self.wf(),
        ensures
            r == self.index(),
            r < CELLS,
    {
        self.x + SIZE * self.y
    }

    /// Get the corresponding LED's index as wired on the PCB.
    pub fn led_index(&self) -> (r: usize)
        requires
            self.wf(),
        ensures
            r == self.led(),
            r < CELLS,
    {
        if self.y % 2 == 0 {
            SIZE * self.y + self.x
        } else {
            SIZE * (self.y + 1) - self.x - 1
        }
    }

    /// The adjacent coordinate in `direction`, or `None` at the edge of the grid.
    pub fn neighbour(&self, direction: Direction) -> (r: Option<Coord>)
        requires
            self.wf(),
        ensures
            r == self.step(direction),
            r matches Some(c) ==> c.wf() && c.steps_to_edge(direction) == self.steps_to_edge(
                direction,
            ) - 1,
            r is None ==> self.steps_to_edge(direction) == 0,
    {
        match direction {
            Direction::Up => Coord::new(self.x, self.y + 1),
            Direction::Down => if self.y == 0 {
                None
            } else {
                Coord::new(self.x, self.y - 1)
            },
            Direction::Left => if self.x == 0 {
                None
            } else {
                Coord::new(self.x - 1, self.y)
            },
            Direction::Right => Coord::new(self.x + 1, self.y),
        }
    }
}

/// Building a coordinate from valid components and reading it back through
/// its storage index gives the same coordinate.
pub proof fn lemma_index_round_trip(x: usize, y: usize)
    requires
        x < SIZE,
        y < SIZE,
    ensures
        coord_at(x as int, y as int) matches Some(c) && coord_of_index(c.index()) == Some(c),
{
}

/// Every coordinate's LED position is on the strip, and the LED at that
/// position belongs to the coordinate.
pub proof fn lemma_led_inverse(c: Coord)
    requires
        c.wf(),
    ensures
        0 <= c.led() < CELLS,
        coord_of_led(c.led()) == c,
{
}

/// Every LED position belongs to a coordinate on the grid, whose LED it is.
pub proof fn lemma_led_coord(led: int)
    requires
        0 <= led < CELLS,
    ensures
        coord_of_led(led).wf(),
        coord_of_led(led).led() == led,
{
}

/// A frame of LED colours, stored in the order the LEDs are wired.
#[derive(Clone, Copy)]
pub struct Board {
    leds: [smart_leds::RGB8; CELLS],
}

impl View for Board {
    type V = Seq<smart_leds::RGB8>;

    closed spec fn view(&self) -> Seq<smart_leds::RGB8> {
        self.leds@
    }
}

/// The colour of an LED that is switched off.
pub open spec fn off() -> smart_leds::RGB8 {
    smart_leds::RGB8 { r: 0, g: 0, b: 0 }
}

impl Board {
    /// A frame with every LED off.
    pub fn new() -> (r: Board)
        ensures
            r@ == Seq::new(CELLS as nat, |i: int| off()),
    {
        let black = smart_leds::RGB8 { r: 0, g: 0, b: 0 };
        let r = Board {
            leds: [
                black, black, black, black, black, black, black, black, black, black, black, black,
                black, black, black, black,
            ],
        };
        assert(black == off());
        assert(r@ =~= Seq::new(CELLS as nat, |i: int| off()));
        r
    }

    /// Set the LED at some location to the provided colour.
    pub fn set_led(&mut self, coord: Coord, colour: smart_leds::RGB8)
        requires
            coord.wf(),
        ensures
            final(self)@ == old(self)@.update(coord.led(), colour),
    {
        let i = coord.led_index();
        self.leds[i] = colour;
    }

    /// The LEDs' colours in the order they are on the PCB.
    pub fn into_iter(&self) -> (r: &[smart_leds::RGB8; CELLS])
        ensures
            r@ == self@,
    {
        &self.leds
    }
}

/// Something that can be shown on the LED grid.
pub trait IntoBoard {
    /// The frame that shows this value, in wiring order.
    spec fn frame(&self) -> Seq<smart_leds::RGB8>;

    fn into_board(&self) -> (r: Board)
        ensures
            r@ == self.frame(),
    ;
}

} // verus!
