//! The decoded 64-by-64 two-plane tile grid: plane 0 holds the architecture
//! (walls and doors), plane 1 the actors (player start, enemies, items).
//! Tile and actor values are classified, not stored, by pure functions over
//! the raw 16-bit words.

use vstd::prelude::*;

use crate::constants::{MAP_SCALE_H, MAP_SCALE_W};
use crate::player::PlayerStart;

verus! {

/// What a raw architecture-plane word stands for.
#[derive(Debug, Clone, Copy, PartialEq, Eq, Structural)]
pub enum Tile {
    Floor,
    Wall(u16),
    Door { vertical: bool, lock: u16 },
}

/// The facing stored with a player-start marker.
#[derive(Debug, Clone, Copy, PartialEq, Eq, Structural)]
pub enum Direction {
    North,
    East,
    South,
    West,
}

/// What a raw actor-plane word stands for.
#[derive(Debug, Clone, Copy, PartialEq, Eq, Structural)]
pub enum Actor {
    Player(Direction),
    Enemy,
    Item,
    DeadGuard,
    PushWall,
}

/// The classification of an architecture-plane word: the even values 90 to
/// 100 are vertical doors and the odd values 91 to 101 horizontal doors,
/// with lock level (value - 90) / 2 resp. (value - 91) / 2; 106 is floor
/// (an ambush marker); every other value below 107 is a wall keeping its
/// raw value as the texture selector; everything else is floor.
pub open spec fn classify_tile(word: u16) -> Tile {
    if word == 90 || word == 92 || word == 94 || word == 96 || word == 98 || word == 100 {
        Tile::Door { vertical: true, lock: ((word - 90) / 2) as u16 }
    } else if word == 91 || word == 93 || word == 95 || word == 97 || word == 99 || word == 101 {
        Tile::Door { vertical: false, lock: ((word - 91) / 2) as u16 }
    } else if word == 106 {
        Tile::Floor
    } else if word < 107 {
        Tile::Wall(word)
    } else {
        Tile::Floor
    }
}

/// Tile classification is total and closed: every 16-bit word classifies,
/// a wall keeps its raw value and only values below 107 become walls, a
/// door arises only from the twelve door words, with its lock level at most
/// 5 and its orientation given by the word's parity.
pub proof fn lemma_tile_classification_closed(word: u16)
    ensures
        match classify_tile(word) {
            Tile::Wall(n) => n == word && n < 107,
            Tile::Door { vertical, lock } => 90 <= word <= 101 && lock <= 5 && vertical == (word
                % 2 == 0),
            Tile::Floor => word == 106 || word >= 107,
        },
{
}

/// The classification of an actor-plane word: 19 to 22 are the player start
/// facing north, east, south, west; 23 to 72 items; 98 a pushwall; 124 a
/// dead guard; 108 and above enemies; anything else is empty.
pub open spec fn classify_actor(word: u16) -> Option<Actor> {
    if word == 19 {
        Some(Actor::Player(Direction::North))
    } else if word == 20 {
        Some(Actor::Player(Direction::East))
    } else if word == 21 {
        Some(Actor::Player(Direction::South))
    } else if word == 22 {
        Some(Actor::Player(Direction::West))
    } else if 23 <= word && word <= 72 {
        Some(Actor::Item)
    } else if word == 98 {
        Some(Actor::PushWall)
    } else if word == 124 {
        Some(Actor::DeadGuard)
    } else if word >= 108 {
        Some(Actor::Enemy)
    } else {
        None
    }
}

/// An actor-plane word that marks the player start.
pub open spec fn is_player_marker(word: u16) -> bool {
    19 <= word && word <= 22
}

/// The facing encoded by a player-start marker.
pub open spec fn marker_direction(word: u16) -> Direction {
    if word == 19 {
        Direction::North
    } else if word == 20 {
        Direction::East
    } else if word == 21 {
        Direction::South
    } else {
        Direction::West
    }
}

/// One level's two 64-by-64 planes, stored row by row of constant x: the
/// word of cell (x, y) sits at index x * 64 + y. Immutable once built.
#[derive(Debug, Clone)]
pub struct TileMap {
    plane0: Vec<u16>,
    plane1: Vec<u16>,
    pub name: Vec<u8>,
}

/// The mathematical image of a tile map.
pub struct TileRec {
    pub plane0: Seq<u16>,
    pub plane1: Seq<u16>,
    pub name: Seq<u8>,
}

impl TileMap {
    /// The map as its mathematical image.
    pub open spec fn rec(&self) -> TileRec {
        TileRec { plane0: self.plane0s(), plane1: self.plane1s(), name: self.names() }
    }

    /// The architecture plane as a sequence of 4096 words.
    pub closed spec fn plane0s(&self) -> Seq<u16> {
        self.plane0@
    }

    /// The actor plane as a sequence of 4096 words.
    pub closed spec fn plane1s(&self) -> Seq<u16> {
        self.plane1@
    }

    /// The level name bytes carried with the planes.
    pub closed spec fn names(&self) -> Seq<u8> {
        self.name@
    }

    /// Both planes hold exactly one word per cell of the 64-by-64 grid.
    pub open spec fn wf(&self) -> bool {
        self.plane0s().len() == 4096 && self.plane1s().len() == 4096
    }

    /// The raw architecture word of cell (x, y).
    pub open spec fn tile_word(&self, x: int, y: int) -> u16 {
        self.plane0s()[x * 64 + y]
    }

    /// The raw actor word of cell (x, y).
    pub open spec fn actor_word(&self, x: int, y: int) -> u16 {
        self.plane1s()[x * 64 + y]
    }

    /// Cell (x, y) holds the player-start marker and no cell before it in
    /// x-major scan order does.
    pub open spec fn first_marker_at(&self, x: int, y: int) -> bool {
        &&& 0 <= x < 64
        &&& 0 <= y < 64
        &&& is_player_marker(self.actor_word(x, y))
        &&& forall|i: int, j: int|
            0 <= i < 64 && 0 <= j < 64 && (i < x || (i == x && j < y)) ==> !is_player_marker(
                #[trigger] self.actor_word(i, j),
            )
    }

    pub fn new(plane0: Vec<u16>, plane1: Vec<u16>, name: Vec<u8>) -> (m: TileMap)
        requires
            plane0@.len() == 4096,
            plane1@.len() == 4096,
        ensures
            m.wf(),
            m.plane0s() == plane0@,
            m.plane1s() == plane1@,
            m.names() == name@,
    {
        TileMap { plane0, plane1, name }
    }

    /// Classifies the architecture word of cell (x, y); pure and total over
    /// the 64-by-64 domain.
    pub fn tile_at(&self, x: u8, y: u8) -> (t: Tile)
        requires
            self.wf(),
            x < 64,
            y < 64,
        ensures
            t == classify_tile(self.tile_word(x as int, y as int)),
    {
        let tile = self.plane0[(x as usize) * 64 + (y as usize)];
        match tile {
            90 | 92 | 94 | 96 | 98 | 100 => Tile::Door { vertical: true, lock: (tile - 90) / 2 },
            91 | 93 | 95 | 97 | 99 | 101 => Tile::Door { vertical: false, lock: (tile - 91) / 2 },
            106 => Tile::Floor,
            n if n < 107 => Tile::Wall(tile),
            _ => Tile::Floor,
        }
    }

    /// Classifies the actor word of cell (x, y); pure and total over the
    /// 64-by-64 domain.
    pub fn actor_at(&self, x: u8, y: u8) -> (a: Option<Actor>)
        requires
            self.wf(),
            x < 64,
            y < 64,
        ensures
            a == classify_actor(self.actor_word(x as int, y as int)),
    {
        let word = self.plane1[(x as usize) * 64 + (y as usize)];
        match word {
            19 => Some(Actor::Player(Direction::North)),
            20 => Some(Actor::Player(Direction::East)),
            21 => Some(Actor::Player(Direction::South)),
            22 => Some(Actor::Player(Direction::West)),
            n if 23 <= n && n <= 72 => Some(Actor::Item),
            98 => Some(Actor::PushWall),
            124 => Some(Actor::DeadGuard),
            n if n >= 108 => Some(Actor::Enemy),
            _ => None,
        }
    }

    /// Scans the actor plane in x-major order and returns the first
    /// player-start marker with its facing; `None` when the map holds no
    /// player marker at all.
    pub fn find_player_start(&self) -> (r: Option<(u8, u8, Direction)>)
        requires
            self.wf(),
        ensures
            match r {
                Some(p) => self.first_marker_at(p.0 as int, p.1 as int) && p.2
                    == marker_direction(self.actor_word(p.0 as int, p.1 as int)),
                None => forall|i: int, j: int|
                    0 <= i < 64 && 0 <= j < 64 ==> !is_player_marker(
                        #[trigger] self.actor_word(i, j),
                    ),
            },
    {
        let mut x: u8 = 0;
        while x < 64
            invariant
                self.wf(),
                x <= 64,
                forall|i: int, j: int|
                    0 <= i < x && 0 <= j < 64 ==> !is_player_marker(
                        #[trigger] self.actor_word(i, j),
                    ),
            decreases 64 - x,
        {
            let mut y: u8 = 0;
            while y < 64
                invariant
                    self.wf(),
                    x < 64,
                    y <= 64,
                    forall|i: int, j: int|
                        0 <= i < x && 0 <= j < 64 ==> !is_player_marker(
                            #[trigger] self.actor_word(i, j),
                        ),
                    forall|j: int|
                        0 <= j < y ==> !is_player_marker(#[trigger] self.actor_word(x as int, j)),
                decreases 64 - y,
            {
                let word = self.plane1[(x as usize) * 64 + (y as usize)];
                if 19 <= word && word <= 22 {
                    let dir = if word == 19 {
                        Direction::North
                    } else if word == 20 {
                        Direction::East
                    } else if word == 21 {
                        Direction::South
                    } else {
                        Direction::West
                    };
                    return Some((x, y, dir));
                }
                y = y + 1;
            }
            x = x + 1;
        }
        None
    }

    /// The freshly loaded player: the first player-start marker scaled to
    /// player units — the cell's origin plus a third of a tile on x and half
    /// a tile on y — with the facing the marker encodes. `None` when the map
    /// holds no player marker.
    pub fn find_player(&self) -> (r: Option<PlayerStart>)
        requires
            self.wf(),
        ensures
            match r {
                Some(ps) => exists|x: int, y: int|
                    #[trigger] self.first_marker_at(x, y) && ps.x == MAP_SCALE_W * x + MAP_SCALE_W
                        / 3 && ps.y == MAP_SCALE_H * y + MAP_SCALE_H / 2 && ps.facing
                        == marker_direction(self.actor_word(x, y)),
                None => forall|i: int, j: int|
                    0 <= i < 64 && 0 <= j < 64 ==> !is_player_marker(
                        #[trigger] self.actor_word(i, j),
                    ),
            },
    {
        match self.find_player_start() {
            Some((x, y, dir)) => {
                let px = MAP_SCALE_W * (x as u32) + MAP_SCALE_W / 3;
                let py = MAP_SCALE_H * (y as u32) + MAP_SCALE_H / 2;
                let ps = PlayerStart { x: px, y: py, facing: dir };
                proof {
                    assert(self.first_marker_at(x as int, y as int));
                }
                Some(ps)
            },
            None => None,
        }
    }
}

} // verus!
