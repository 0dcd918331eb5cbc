//! The tables from which the indices of threats are computed.
use vstd::prelude::*;

use crate::checksum;
use crate::shogi::Color;
use crate::shogi::Square;
use crate::threat_class;
use crate::threat_class::ThreatClass;
use crate::threat_class::NUM_ATTACK_PATTERNS;
use crate::threat_class::NUM_PAIRS;
use crate::threat_index;
use crate::threat_index::ThreatProfile;

verus! {

/// Number of entries of the table of offsets.
pub const NUM_FROM_OFFSETS: usize = 1134;

/// Number of entries of the table of orders.
pub const NUM_ATTACK_ORDERS: usize = 91_854;

/// Entry `i` of the table of offsets: pattern by pattern and square by square, how many attacks
/// of the pattern start from lower squares.
pub open spec fn from_offset_entry(i: int) -> nat {
    let pattern = i / 81;
    threat_class::attacks_from_below(
        threat_index::pattern_class(pattern),
        threat_index::pattern_color(pattern),
        i % 81,
    )
}

/// Entry `i` of the table of orders: pattern by pattern, square by square and target by target,
/// how many lower squares are attacked too; 255 where the target is not attacked.
pub open spec fn attack_order_entry(i: int) -> int {
    let pattern = i / 6561;
    let from = (i / 81) % 81;
    let to = i % 81;
    let class = threat_index::pattern_class(pattern);
    let color = threat_index::pattern_color(pattern);
    if threat_class::attacks(class, color, from, to) {
        threat_class::attacked_below(class, color, from, to) as int
    } else {
        255
    }
}

/// For each attack pattern and square, how many attacks of the pattern start from lower squares.
#[derive(Debug)]
pub struct FromOffsetTable {
    data: Vec<usize>,
}

impl View for FromOffsetTable {
    type V = Seq<usize>;

    /// The entries, pattern by pattern and square by square.
    closed spec fn view(&self) -> Seq<usize> {
        self.data@
    }
}

impl FromOffsetTable {
    #[verifier::type_invariant]
    spec fn inv(&self) -> bool {
        &&& self.data@.len() == NUM_FROM_OFFSETS
        &&& forall|i: int|
            0 <= i < NUM_FROM_OFFSETS ==> #[trigger] self.data@[i] == from_offset_entry(i)
    }

    /// Builds the table.
    pub fn new() -> (table: FromOffsetTable)
        ensures
            table@ == Seq::new(NUM_FROM_OFFSETS as nat, |i: int| from_offset_entry(i) as usize),
    {
        let mut data: Vec<usize> = Vec::new();
        let mut pattern: usize = 0;
        while pattern < NUM_ATTACK_PATTERNS
            invariant
                pattern <= NUM_ATTACK_PATTERNS,
                data@.len() == pattern * 81,
                forall|i: int| 0 <= i < data@.len() ==> #[trigger] data@[i] == from_offset_entry(i),
            decreases NUM_ATTACK_PATTERNS - pattern,
        {
            let class = pattern_class(pattern);
            let color = pattern_color(pattern);
            let mut from: u8 = 0;
            let mut offset: usize = 0;
            while from < 81
                invariant
                    pattern < NUM_ATTACK_PATTERNS,
                    class == threat_index::pattern_class(pattern as int),
                    color == threat_index::pattern_color(pattern as int),
                    from <= 81,
                    offset == threat_class::attacks_from_below(class, color, from as int),
                    offset <= from * 81,
                    data@.len() == pattern * 81 + from,
                    forall|i: int|
                        0 <= i < data@.len() ==> #[trigger] data@[i] == from_offset_entry(i),
                decreases 81 - from,
            {
                assert((pattern * 81 + from) / 81 == pattern && (pattern * 81 + from) % 81
                    == from);
                data.push(offset);
                let count = attack_count(class, color, Square(from));
                offset = offset + count;
                from = from + 1;
            }
            pattern = pattern + 1;
        }
        assert(data@ =~= Seq::new(NUM_FROM_OFFSETS as nat, |i: int| from_offset_entry(i) as usize));
        FromOffsetTable { data }
    }

    pub fn get(&self, pattern: usize, from: Square) -> (offset: usize)
        requires
            pattern < NUM_ATTACK_PATTERNS,
            from.is_valid(),
        ensures
            offset == self@[pattern * 81 + from.0],
            offset == threat_class::attacks_from_below(
                threat_index::pattern_class(pattern as int),
                threat_index::pattern_color(pattern as int),
                from.0 as int,
            ),
    {
        proof {
            use_type_invariant(self);
            let i = pattern * 81 + from.0;
            assert(i / 81 == pattern && i % 81 == from.0);
        }
        self.data[pattern * 81 + from.index()]
    }
}

impl Clone for FromOffsetTable {
    fn clone(&self) -> (copy: FromOffsetTable)
        ensures
            copy@ == self@,
    {
        proof {
            use_type_invariant(self);
        }
        let data = self.data.clone();
        assert(data@ =~= self.data@);
        FromOffsetTable { data }
    }
}

/// How many squares are attacked from `from` on an empty board.
fn attack_count(class: ThreatClass, color: Color, from: Square) -> (count: usize)
    requires
        from.is_valid(),
    ensures
        count == threat_class::attacked_below(class, color, from.0 as int, 81),
        count <= 81,
{
    let mut count: usize = 0;
    let mut to: u8 = 0;
    while to < 81
        invariant
            from.is_valid(),
            to <= 81,
            count == threat_class::attacked_below(class, color, from.0 as int, to as int),
            count <= to,
        decreases 81 - to,
    {
        if threat_class::attacks_square(class, color, from, Square(to)) {
            count = count + 1;
        }
        to = to + 1;
    }
    count
}

fn pattern_class(pattern: usize) -> (class: ThreatClass)
    requires
        pattern < NUM_ATTACK_PATTERNS,
    ensures
        class == threat_index::pattern_class(pattern as int),
{
    if pattern < 9 {
        ThreatClass::from_index(pattern)
    } else {
        ThreatClass::from_index(pattern - 9)
    }
}

fn pattern_color(pattern: usize) -> (color: Color)
    ensures
        color == threat_index::pattern_color(pattern as int),
{
    if pattern < 9 {
        Color::Black
    } else {
        Color::White
    }
}

/// For each attack pattern and square, the order in which the attacked squares are numbered.
#[derive(Debug)]
pub struct AttackOrderTable {
    data: Vec<u8>,
}

impl View for AttackOrderTable {
    type V = Seq<u8>;

    /// The entries, pattern by pattern, square by square and target by target.
    closed spec fn view(&self) -> Seq<u8> {
        self.data@
    }
}

impl AttackOrderTable {
    /// Stands for a square that is not attacked.
    pub const INVALID: u8 = 255;

    #[verifier::type_invariant]
    spec fn inv(&self) -> bool {
        &&& self.data@.len() == NUM_ATTACK_ORDERS
        &&& forall|i: int|
            0 <= i < NUM_ATTACK_ORDERS ==> #[trigger] self.data@[i] == attack_order_entry(i)
    }

    /// Builds the table.
    pub fn new() -> (table: AttackOrderTable)
        ensures
            table@ == Seq::new(NUM_ATTACK_ORDERS as nat, |i: int| attack_order_entry(i) as u8),
    {
        let mut data: Vec<u8> = Vec::new();
        let mut row: usize = 0;
        while row < NUM_FROM_OFFSETS
            invariant
                row <= NUM_FROM_OFFSETS,
                data@.len() == row * 81,
                forall|i: int| 0 <= i < data@.len() ==> #[trigger] data@[i] == attack_order_entry(i),
            decreases NUM_FROM_OFFSETS - row,
        {
            let class = pattern_class(row / 81);
            let color = pattern_color(row / 81);
            let from = Square((row % 81) as u8);
            let mut to: u8 = 0;
            let mut count: u8 = 0;
            while to < 81
                invariant
                    row < NUM_FROM_OFFSETS,
                    class == threat_index::pattern_class(row as int / 81),
                    color == threat_index::pattern_color(row as int / 81),
                    from.0 == row % 81,
                    to <= 81,
                    count == threat_class::attacked_below(class, color, from.0 as int, to as int),
                    count <= to,
                    data@.len() == row * 81 + to,
                    forall|i: int|
                        0 <= i < data@.len() ==> #[trigger] data@[i] == attack_order_entry(i),
                decreases 81 - to,
            {
                let ghost i = row * 81 + to;
                assert(i / 6561 == row as int / 81 && (i / 81) % 81 == row % 81 && i % 81 == to);
                if threat_class::attacks_square(class, color, from, Square(to)) {
                    data.push(count);
                    count = count + 1;
                } else {
                    data.push(Self::INVALID);
                }
                to = to + 1;
            }
            row = row + 1;
        }
        assert(data@ =~= Seq::new(NUM_ATTACK_ORDERS as nat, |i: int| attack_order_entry(i) as u8));
        AttackOrderTable { data }
    }

    pub fn get(&self, pattern: usize, from: Square, to: Square) -> (order: u8)
        requires
            pattern < NUM_ATTACK_PATTERNS,
            from.is_valid(),
            to.is_valid(),
        ensures
            order == self@[(pattern * 81 + from.0) * 81 + to.0],
            ({
                let class = threat_index::pattern_class(pattern as int);
                let color = threat_index::pattern_color(pattern as int);
                if threat_class::attacks(class, color, from.0 as int, to.0 as int) {
                    &&& order < 81
                    &&& order == threat_class::attacked_below(
                        class,
                        color,
                        from.0 as int,
                        to.0 as int,
                    )
                } else {
                    order == Self::INVALID
                }
            }),
    {
        proof {
            use_type_invariant(self);
            let i = (pattern * 81 + from.0) * 81 + to.0;
            assert(i / 6561 == pattern && (i / 81) % 81 == from.0 && i % 81 == to.0);
            threat_index::lemma_attacked_below_grows(
                threat_index::pattern_class(pattern as int),
                threat_index::pattern_color(pattern as int),
                from.0 as int,
                0,
                to.0 as int,
            );
        }
        self.data[(pattern * 81 + from.index()) * 81 + to.index()]
    }
}

impl Clone for AttackOrderTable {
    fn clone(&self) -> (copy: AttackOrderTable)
        ensures
            copy@ == self@,
    {
        proof {
            use_type_invariant(self);
        }
        let data = self.data.clone();
        assert(data@ =~= self.data@);
        AttackOrderTable { data }
    }
}

/// What the index of a threat depends on, all as one side sees it: the sides and classes of the
/// attacker and the target, their squares, and the direction in which the attacker moves.
#[derive(Clone, Copy, Debug)]
pub struct ThreatParams {
    pub attacker_side: usize,
    pub attacker_class: ThreatClass,
    pub oriented_color: Color,
    pub attacked_side: usize,
    pub attacked_class: ThreatClass,
    pub from_sq_n: Square,
    pub to_sq_n: Square,
}

/// All tables.
#[derive(Debug)]
pub struct ThreatTables {
    pair_base: Vec<usize>,
    from_offset: FromOffsetTable,
    attack_order: AttackOrderTable,
}

/// Everything that the tables hold: the first indices of the combinations, the offsets and the
/// orders.
pub open spec fn table_values() -> Seq<u64> {
    Seq::new(NUM_PAIRS as nat, |pair: int| threat_index::pair_base(pair) as u64) + Seq::new(
        NUM_FROM_OFFSETS as nat,
        |i: int| from_offset_entry(i) as u64,
    ) + Seq::new(NUM_ATTACK_ORDERS as nat, |i: int| attack_order_entry(i) as u64)
}

/// Tables with the right entries hold the right values, one table after the other.
proof fn lemma_contents(
    pair_base: Seq<usize>,
    from_offset: FromOffsetTable,
    attack_order: AttackOrderTable,
)
    requires
        pair_base.len() == NUM_PAIRS,
        forall|pair: int|
            0 <= pair < NUM_PAIRS ==> #[trigger] pair_base[pair] == threat_index::pair_base(pair),
        from_offset.inv(),
        attack_order.inv(),
    ensures
        pair_base.map_values(|base: usize| base as u64) + from_offset@.map_values(
            |offset: usize| offset as u64,
        ) + attack_order@.map_values(|order: u8| order as u64) == table_values(),
{
    assert(pair_base.map_values(|base: usize| base as u64) =~= Seq::new(
        NUM_PAIRS as nat,
        |pair: int| threat_index::pair_base(pair) as u64,
    ));
    assert(from_offset@.map_values(|offset: usize| offset as u64) =~= Seq::new(
        NUM_FROM_OFFSETS as nat,
        |i: int| from_offset_entry(i) as u64,
    ));
    assert(attack_order@.map_values(|order: u8| order as u64) =~= Seq::new(
        NUM_ATTACK_ORDERS as nat,
        |i: int| attack_order_entry(i) as u64,
    ));
}

impl ThreatTables {
    #[verifier::type_invariant]
    spec fn inv(&self) -> bool {
        &&& self.pair_base@.len() == NUM_PAIRS
        &&& forall|pair: int|
            0 <= pair < NUM_PAIRS ==> #[trigger] self.pair_base@[pair] == threat_index::pair_base(
                pair,
            )
    }

    /// Everything that these tables hold: the first indices of the combinations, the offsets and
    /// the orders.
    pub closed spec fn contents(&self) -> Seq<u64> {
        self.pair_base@.map_values(|base: usize| base as u64) + self.from_offset@.map_values(
            |offset: usize| offset as u64,
        ) + self.attack_order@.map_values(|order: u8| order as u64)
    }

    /// Builds the tables.
    pub fn new() -> (tables: ThreatTables)
        ensures
            tables.contents() == table_values(),
    {
        let (pair_base, _) = threat_index::build_pair_base(ThreatProfile::Full);
        let from_offset = FromOffsetTable::new();
        let attack_order = AttackOrderTable::new();
        proof {
            use_type_invariant(&from_offset);
            use_type_invariant(&attack_order);
            lemma_contents(pair_base@, from_offset, attack_order);
        }
        ThreatTables { pair_base, from_offset, attack_order }
    }

    /// The index of a threat; `None` if the attacker does not attack the target's square on an
    /// empty board.
    pub fn threat_index(&self, params: &ThreatParams) -> (index: Option<usize>)
        requires
            params.attacker_side < 2,
            params.attacked_side < 2,
            params.from_sq_n.is_valid(),
            params.to_sq_n.is_valid(),
        ensures
            ({
                let pair = threat_index::pair_of(
                    params.attacker_side as int,
                    params.attacker_class,
                    params.attacked_side as int,
                    params.attacked_class,
                );
                let class = params.attacker_class;
                let color = params.oriented_color;
                let from = params.from_sq_n.0 as int;
                let to = params.to_sq_n.0 as int;
                if threat_class::attacks(class, color, from, to) {
                    &&& index is Some
                    &&& index->0 == threat_index::pair_base(pair)
                        + threat_class::attacks_from_below(class, color, from)
                        + threat_class::attacked_below(class, color, from, to)
                } else {
                    index is None
                }
            }),
    {
        proof {
            use_type_invariant(self);
        }
        let pair: usize = params.attacker_side * 162 + params.attacker_class.index() * 18
            + params.attacked_side * 9 + params.attacked_class.index();
        let pattern = threat_index::attack_pattern_id(params.attacker_class, params.oriented_color);
        let offset = self.from_offset.get(pattern, params.from_sq_n);
        let order = self.attack_order.get(pattern, params.from_sq_n, params.to_sq_n);
        proof {
            threat_index::lemma_pattern_attacks(
                params.attacker_class,
                params.oriented_color,
                params.from_sq_n.0 as int,
                params.to_sq_n.0 as int,
            );
            threat_index::lemma_pattern_attacks(
                params.attacker_class,
                params.oriented_color,
                params.from_sq_n.0 as int,
                params.to_sq_n.0 + 1,
            );
            threat_index::lemma_pattern_attacks_from(
                params.attacker_class,
                params.oriented_color,
                params.from_sq_n.0 as int,
            );
            threat_index::law_number_of_threats();
            threat_index::lemma_pair_base_grows(pair as int, 324);
            threat_class::law_class_attacks(params.attacker_class, params.oriented_color);
            threat_index::lemma_attacks_from_below_grows(
                params.attacker_class,
                params.oriented_color,
                params.from_sq_n.0 as int,
                81,
            );
        }
        if order == AttackOrderTable::INVALID {
            None
        } else {
            Some(self.pair_base[pair] + offset + order as usize)
        }
    }

    /// The FNV-1a checksum of all that the tables hold.
    pub fn checksum(&self) -> (h: u64)
        ensures
            h == checksum::fnv1a(self.contents()),
            h == checksum::fnv1a(table_values()),
    {
        proof {
            use_type_invariant(self);
            use_type_invariant(&self.from_offset);
            use_type_invariant(&self.attack_order);
            lemma_contents(self.pair_base@, self.from_offset, self.attack_order);
        }
        let mut h: u64 = checksum::FNV_BASIS;
        let ghost values = table_values();
        let mut i: usize = 0;
        assert(values.take(0) =~= seq![]);
        while i < NUM_PAIRS
            invariant
                i <= NUM_PAIRS,
                self.inv(),
                values == table_values(),
                h == checksum::fnv1a(values.take(i as int)),
            decreases NUM_PAIRS - i,
        {
            assert(values[i as int] == self.pair_base@[i as int] as u64);
            assert(values.take(i + 1) =~= values.take(i as int).push(values[i as int]));
            proof {
                checksum::lemma_fnv1a_push(values.take(i as int), values[i as int]);
            }
            h = checksum::mix(h, self.pair_base[i] as u64);
            i = i + 1;
        }
        let mut j: usize = 0;
        while j < NUM_FROM_OFFSETS
            invariant
                j <= NUM_FROM_OFFSETS,
                self.from_offset.inv(),
                values == table_values(),
                h == checksum::fnv1a(values.take(NUM_PAIRS + j)),
            decreases NUM_FROM_OFFSETS - j,
        {
            let ghost at = NUM_PAIRS + j;
            assert(values[at] == self.from_offset.data@[j as int] as u64);
            assert(values.take(at + 1) =~= values.take(at).push(values[at]));
            proof {
                checksum::lemma_fnv1a_push(values.take(at), values[at]);
            }
            h = checksum::mix(h, self.from_offset.data[j] as u64);
            j = j + 1;
        }
        let mut k: usize = 0;
        while k < NUM_ATTACK_ORDERS
            invariant
                k <= NUM_ATTACK_ORDERS,
                self.attack_order.inv(),
                values == table_values(),
                h == checksum::fnv1a(values.take(NUM_PAIRS + NUM_FROM_OFFSETS + k)),
            decreases NUM_ATTACK_ORDERS - k,
        {
            let ghost at = NUM_PAIRS + NUM_FROM_OFFSETS + k;
            assert(values[at] == self.attack_order.data@[k as int] as u64);
            assert(values.take(at + 1) =~= values.take(at).push(values[at]));
            proof {
                checksum::lemma_fnv1a_push(values.take(at), values[at]);
            }
            h = checksum::mix(h, self.attack_order.data[k] as u64);
            k = k + 1;
        }
        assert(values.take(values.len() as int) =~= values);
        h
    }
}

impl Clone for ThreatTables {
    fn clone(&self) -> (copy: ThreatTables)
        ensures
            copy.contents() == self.contents(),
    {
        proof {
            use_type_invariant(self);
        }
        let pair_base = self.pair_base.clone();
        assert(pair_base@ =~= self.pair_base@);
        ThreatTables {
            pair_base,
            from_offset: self.from_offset.clone(),
            attack_order: self.attack_order.clone(),
        }
    }
}

} // verus!
