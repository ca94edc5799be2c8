//! The names and numbers that one run gives to tables, columns and statements.
use vstd::prelude::*;

use crate::checks::{first, refused_if};
use crate::fields::chars_of;
use crate::ranking::audit_digest::{mix64, mixed};
use crate::ranking::sql_text::{CatalogError, catalog_refusal, same_text};
use crate::ranking::statement_id::{StatementId, catalogue_ids, statement_key, wire_number};
use crate::text::{decimal, hex_digits, join2, join3, join4, push_hex, unsigned_text};

verus! {

/// How many identifiers a schema names.
pub const IDENTIFIER_COUNT: usize = 91;

#[derive(Clone, Copy, Debug, PartialEq, Eq, Structural)]
pub enum LogicalTable {
    Warehouse,
    District,
    Customer,
    History,
    NewOrders,
    Orders,
    OrderLine,
    Item,
    Stock,
}

/// The position of a table among the identifiers.
pub open spec fn table_index(table: LogicalTable) -> int {
    match table {
        LogicalTable::Warehouse => 0,
        LogicalTable::District => 1,
        LogicalTable::Customer => 2,
        LogicalTable::History => 3,
        LogicalTable::NewOrders => 4,
        LogicalTable::Orders => 5,
        LogicalTable::OrderLine => 6,
        LogicalTable::Item => 7,
        LogicalTable::Stock => 8,
    }
}

/// The identifiers of the statements: the tables, then the columns.
pub open spec fn identifier_list() -> Seq<Seq<char>> {
    seq![
        "warehouse"@,
        "district"@,
        "customer"@,
        "history"@,
        "new_orders"@,
        "orders"@,
        "order_line"@,
        "item"@,
        "stock"@,
        "c_balance"@,
        "c_city"@,
        "c_credit"@,
        "c_credit_lim"@,
        "c_d_id"@,
        "c_data"@,
        "c_delivery_cnt"@,
        "c_discount"@,
        "c_first"@,
        "c_id"@,
        "c_last"@,
        "c_middle"@,
        "c_payment_cnt"@,
        "c_phone"@,
        "c_since"@,
        "c_state"@,
        "c_street_1"@,
        "c_street_2"@,
        "c_w_id"@,
        "c_ytd_payment"@,
        "c_zip"@,
        "d_city"@,
        "d_id"@,
        "d_name"@,
        "d_next_o_id"@,
        "d_state"@,
        "d_street_1"@,
        "d_street_2"@,
        "d_tax"@,
        "d_w_id"@,
        "d_ytd"@,
        "d_zip"@,
        "i_data"@,
        "i_id"@,
        "i_name"@,
        "i_price"@,
        "low_stock_count"@,
        "no_d_id"@,
        "no_o_id"@,
        "no_w_id"@,
        "o_c_id"@,
        "o_carrier_id"@,
        "o_d_id"@,
        "o_entry_d"@,
        "o_id"@,
        "o_w_id"@,
        "ol_amount"@,
        "ol_amount_sum"@,
        "ol_d_id"@,
        "ol_delivery_d"@,
        "ol_i_id"@,
        "ol_number"@,
        "ol_o_id"@,
        "ol_quantity"@,
        "ol_supply_w_id"@,
        "ol_w_id"@,
        "s_data"@,
        "s_dist_01"@,
        "s_dist_02"@,
        "s_dist_03"@,
        "s_dist_04"@,
        "s_dist_05"@,
        "s_dist_06"@,
        "s_dist_07"@,
        "s_dist_08"@,
        "s_dist_09"@,
        "s_dist_10"@,
        "s_i_id"@,
        "s_order_cnt"@,
        "s_quantity"@,
        "s_remote_cnt"@,
        "s_w_id"@,
        "s_ytd"@,
        "w_city"@,
        "w_id"@,
        "w_name"@,
        "w_state"@,
        "w_street_1"@,
        "w_street_2"@,
        "w_tax"@,
        "w_ytd"@,
        "w_zip"@,
    ]
}

/// The identifiers of the statements.
pub fn identifiers() -> (r: Vec<&'static str>)
    ensures
        r@.len() == IDENTIFIER_COUNT,
        forall|i: int| 0 <= i < r@.len() ==> (#[trigger] r@[i])@ == identifier_list()[i],
        identifier_list().len() == IDENTIFIER_COUNT,
{
    vec![
        "warehouse",
        "district",
        "customer",
        "history",
        "new_orders",
        "orders",
        "order_line",
        "item",
        "stock",
        "c_balance",
        "c_city",
        "c_credit",
        "c_credit_lim",
        "c_d_id",
        "c_data",
        "c_delivery_cnt",
        "c_discount",
        "c_first",
        "c_id",
        "c_last",
        "c_middle",
        "c_payment_cnt",
        "c_phone",
        "c_since",
        "c_state",
        "c_street_1",
        "c_street_2",
        "c_w_id",
        "c_ytd_payment",
        "c_zip",
        "d_city",
        "d_id",
        "d_name",
        "d_next_o_id",
        "d_state",
        "d_street_1",
        "d_street_2",
        "d_tax",
        "d_w_id",
        "d_ytd",
        "d_zip",
        "i_data",
        "i_id",
        "i_name",
        "i_price",
        "low_stock_count",
        "no_d_id",
        "no_o_id",
        "no_w_id",
        "o_c_id",
        "o_carrier_id",
        "o_d_id",
        "o_entry_d",
        "o_id",
        "o_w_id",
        "ol_amount",
        "ol_amount_sum",
        "ol_d_id",
        "ol_delivery_d",
        "ol_i_id",
        "ol_number",
        "ol_o_id",
        "ol_quantity",
        "ol_supply_w_id",
        "ol_w_id",
        "s_data",
        "s_dist_01",
        "s_dist_02",
        "s_dist_03",
        "s_dist_04",
        "s_dist_05",
        "s_dist_06",
        "s_dist_07",
        "s_dist_08",
        "s_dist_09",
        "s_dist_10",
        "s_i_id",
        "s_order_cnt",
        "s_quantity",
        "s_remote_cnt",
        "s_w_id",
        "s_ytd",
        "w_city",
        "w_id",
        "w_name",
        "w_state",
        "w_street_1",
        "w_street_2",
        "w_tax",
        "w_ytd",
        "w_zip",
    ]
}

/// Which identifier a word is, from `i` on.
pub open spec fn identifier_index(word: Seq<char>, i: int) -> Option<int>
    decreases identifier_list().len() - i,
{
    if i >= identifier_list().len() {
        None
    } else if identifier_list()[i] == word {
        Some(i)
    } else {
        identifier_index(word, i + 1)
    }
}

/// Whether a character belongs to a word.
pub open spec fn is_word_char(c: char) -> bool {
    ('a' <= c <= 'z') || ('A' <= c <= 'Z') || ('0' <= c <= '9') || c == '_'
}

/// Where the word at `i` ends.
pub open spec fn word_end(text: Seq<char>, i: int) -> int
    decreases text.len() - i,
{
    if 0 <= i < text.len() && is_word_char(text[i]) {
        word_end(text, i + 1)
    } else {
        i
    }
}

pub proof fn lemma_word_end(text: Seq<char>, i: int)
    requires
        0 <= i <= text.len(),
    ensures
        i <= word_end(text, i) <= text.len(),
    decreases text.len() - i,
{
    if i < text.len() && is_word_char(text[i]) {
        lemma_word_end(text, i + 1);
    }
}

/// A word, or the name that it has in a run.
pub open spec fn renamed(word: Seq<char>, names: Seq<Seq<char>>) -> Seq<char> {
    match identifier_index(word, 0) {
        Some(i) => names[i],
        None => word,
    }
}

/// A text from `i` on, with the names of a run.
pub open spec fn rendered_from(text: Seq<char>, names: Seq<Seq<char>>, i: int) -> Seq<char>
    decreases text.len() - i,
    via rendered_from_decreases
{
    if i < 0 || i >= text.len() {
        Seq::empty()
    } else if is_word_char(text[i]) {
        let end = word_end(text, i + 1);
        renamed(text.subrange(i, end), names) + rendered_from(text, names, end)
    } else {
        seq![text[i]] + rendered_from(text, names, i + 1)
    }
}

#[via_fn]
proof fn rendered_from_decreases(text: Seq<char>, names: Seq<Seq<char>>, i: int) {
    if 0 <= i < text.len() {
        lemma_word_end(text, i + 1);
    }
}

/// A text with the names of a run.
pub open spec fn rendered(text: Seq<char>, names: Seq<Seq<char>>) -> Seq<char> {
    rendered_from(text, names, 0)
}

/// The numbers of the statements in one run, in the order of the catalogue.
#[derive(Clone, Debug, PartialEq, Eq)]
pub struct StatementLayout {
    pub ids: Vec<u16>,
}

/// The number of the statement with a key, from `i` on.
pub open spec fn layout_id(ids: Seq<u16>, key: Seq<char>, i: int) -> Option<u16>
    decreases ids.len() - i,
{
    if i >= ids.len() || i >= catalogue_ids().len() {
        None
    } else if statement_key(catalogue_ids()[i]) == key {
        Some(ids[i])
    } else {
        layout_id(ids, key, i + 1)
    }
}

/// The text of an unknown key.
pub open spec fn unknown_key_text(key: Seq<char>) -> Seq<char> {
    "unknown statement key "@ + key
}

impl StatementLayout {
    /// The numbers on the wire.
    pub fn canonical() -> (r: Self)
        ensures
            r.ids@ == Seq::new(42, |i: int| wire_number(catalogue_ids()[i])),
    {
        let all = StatementId::all();
        let mut ids: Vec<u16> = Vec::new();
        let mut i: usize = 0;
        while i < all.len()
            invariant
                i <= all@.len() == 42,
                all@ == catalogue_ids(),
                ids@.len() == i,
                forall|k: int| 0 <= k < i ==> #[trigger] ids@[k] == wire_number(all@[k]),
            decreases all@.len() - i,
        {
            ids.push(all[i].wire_id());
            i = i + 1;
        }
        assert(ids@ =~= Seq::new(42, |i: int| wire_number(catalogue_ids()[i])));
        StatementLayout { ids }
    }

    /// The number of the statement with a key.
    pub fn id(&self, key: &str) -> (r: Result<u16, CatalogError>)
        ensures
            match layout_id(self.ids@, key@, 0) {
                Some(id) => r == Ok::<u16, CatalogError>(id),
                None => catalog_refusal(r) == Some(unknown_key_text(key@)),
            },
    {
        let all = StatementId::all();
        let mut i: usize = 0;
        while i < all.len() && i < self.ids.len()
            invariant
                i <= all@.len(),
                i <= self.ids@.len(),
                all@ == catalogue_ids(),
                layout_id(self.ids@, key@, 0) == layout_id(self.ids@, key@, i as int),
            decreases all@.len() - i,
        {
            if same_text(all[i].key(), key) {
                return Ok(self.ids[i]);
            }
            i = i + 1;
        }
        Err(CatalogError::of(join2("unknown statement key ", key)))
    }
}

/// The names and numbers of one run.
#[derive(Clone, Debug, PartialEq, Eq)]
pub struct RuntimeSchema {
    pub seed: u64,
    pub layout: StatementLayout,
    pub names: Vec<String>,
}

/// The contents of a list of names.
pub open spec fn name_texts(names: Seq<String>) -> Seq<Seq<char>> {
    Seq::new(names.len(), |i: int| names[i]@)
}

/// The number of a statement in the run of a seed.
pub open spec fn opaque_id(seed: u64, i: int) -> u16 {
    (256 + mixed(seed) % 60_000 + i) as u16
}

/// The name of an identifier in the run of a seed.
pub open spec fn opaque_name(seed: u64, i: int) -> Seq<char> {
    "r"@ + hex_digits(mixed(seed) as nat, 16) + "_"@ + hex_digits(i as nat, 2)
}

/// The fingerprint of a seed and the first `n` numbers.
pub open spec fn layout_fingerprint(seed: u64, ids: Seq<u16>, n: int) -> u64
    decreases n,
{
    if n <= 0 {
        mixed(seed)
    } else {
        mixed(layout_fingerprint(seed, ids, n - 1) ^ ids[n - 1] as u64)
    }
}

/// Why the numbers from `i` on are refused.
pub open spec fn layout_fault(ids: Seq<u16>, i: int) -> Option<Seq<char>>
    decreases ids.len() - i,
{
    if i >= ids.len() {
        None
    } else {
        first(
            refused_if(ids[i] == 0, "statement id 0 is reserved"@),
            first(
                refused_if(
                    exists|k: int| 0 <= k < i && #[trigger] ids[k] == ids[i],
                    "duplicate statement id "@ + decimal(ids[i] as nat),
                ),
                layout_fault(ids, i + 1),
            ),
        )
    }
}

impl RuntimeSchema {
    /// Why a schema is refused.
    pub open spec fn fault(self) -> Option<Seq<char>> {
        first(
            refused_if(
                self.layout.ids@.len() != 42,
                "statement layout has "@ + decimal(self.layout.ids@.len()) + " ids, expected 42"@,
            ),
            first(
                refused_if(
                    self.names@.len() != IDENTIFIER_COUNT,
                    "schema has "@ + decimal(self.names@.len()) + " names, expected "@ + decimal(
                        IDENTIFIER_COUNT as nat,
                    ),
                ),
                layout_fault(self.layout.ids@, 0),
            ),
        )
    }
}

/// The identifiers, character by character.
fn identifier_chars() -> (r: Vec<Vec<char>>)
    ensures
        r@.len() == identifier_list().len(),
        forall|i: int| 0 <= i < r@.len() ==> (#[trigger] r@[i])@ == identifier_list()[i],
        identifier_list().len() == IDENTIFIER_COUNT,
{
    let list = identifiers();
    let mut out: Vec<Vec<char>> = Vec::new();
    let mut i: usize = 0;
    while i < list.len()
        invariant
            i <= list@.len() == identifier_list().len(),
            out@.len() == i,
            forall|k: int| 0 <= k < list@.len() ==> (#[trigger] list@[k])@ == identifier_list()[k],
            forall|k: int| 0 <= k < i ==> (#[trigger] out@[k])@ == identifier_list()[k],
        decreases list@.len() - i,
    {
        let chars = chars_of(list[i]);
        out.push(chars);
        i = i + 1;
    }
    out
}

fn same_chars(a: &Vec<char>, b: &Vec<char>) -> (r: bool)
    ensures
        r == (a@ == b@),
{
    if a.len() != b.len() {
        return false;
    }
    let mut i: usize = 0;
    while i < a.len()
        invariant
            i <= a@.len() == b@.len(),
            forall|k: int| 0 <= k < i ==> a@[k] == b@[k],
        decreases a@.len() - i,
    {
        if a[i] != b[i] {
            return false;
        }
        i = i + 1;
    }
    assert(a@ =~= b@);
    true
}

fn find_identifier(word: &Vec<char>, list: &Vec<Vec<char>>) -> (r: Option<usize>)
    requires
        list@.len() == identifier_list().len(),
        forall|i: int| 0 <= i < list@.len() ==> (#[trigger] list@[i])@ == identifier_list()[i],
    ensures
        match r {
            Some(i) => identifier_index(word@, 0) == Some(i as int) && i < list@.len(),
            None => identifier_index(word@, 0) is None,
        },
{
    let mut i: usize = 0;
    while i < list.len()
        invariant
            i <= list@.len() == identifier_list().len(),
            forall|k: int| 0 <= k < list@.len() ==> (#[trigger] list@[k])@ == identifier_list()[k],
            identifier_index(word@, 0) == identifier_index(word@, i as int),
        decreases list@.len() - i,
    {
        assert(list@[i as int]@ == identifier_list()[i as int]);
        if same_chars(&list[i], word) {
            return Some(i);
        }
        i = i + 1;
    }
    None
}

fn belongs_to_word(c: char) -> (r: bool)
    ensures
        r == is_word_char(c),
{
    ('a' <= c && c <= 'z') || ('A' <= c && c <= 'Z') || ('0' <= c && c <= '9') || c == '_'
}

fn push_text(out: &mut String, text: &str)
    ensures
        final(out)@ == old(out)@ + text@,
{
    let chars = chars_of(text);
    push_chars(out, &chars);
}

fn push_chars(out: &mut String, chars: &Vec<char>)
    ensures
        final(out)@ == old(out)@ + chars@,
{
    let ghost before = out@;
    let mut i: usize = 0;
    while i < chars.len()
        invariant
            i <= chars@.len(),
            before == old(out)@,
            out@ =~= before + chars@.subrange(0, i as int),
        decreases chars@.len() - i,
    {
        out.push(chars[i]);
        i = i + 1;
    }
    assert(chars@.subrange(0, i as int) =~= chars@);
}

impl RuntimeSchema {
    /// The schema of a run, drawn from its seed.
    pub fn opaque(seed: u64) -> (r: Result<Self, CatalogError>)
        ensures
            r matches Ok(schema) && schema.seed == seed && schema.layout.ids@ == Seq::new(
                42,
                |i: int| opaque_id(seed, i),
            ) && name_texts(schema.names@) == Seq::new(
                IDENTIFIER_COUNT as nat,
                |i: int| opaque_name(seed, i),
            ),
    {
        let mix: u64 = mix64(seed);
        let base: u16 = 256 + (mix % 60_000) as u16;
        let mut ids: Vec<u16> = Vec::new();
        let mut i: u16 = 0;
        while i < 42
            invariant
                i <= 42,
                base == 256 + mixed(seed) % 60_000,
                ids@ =~= Seq::new(i as nat, |k: int| opaque_id(seed, k)),
            decreases 42 - i,
        {
            ids.push(base + i);
            i = i + 1;
        }
        let mut prefix = String::new();
        push_text(&mut prefix, "r");
        push_hex(&mut prefix, mix, 16);
        push_text(&mut prefix, "_");
        let ghost head = prefix@;
        proof {
            assert(head =~= "r"@ + hex_digits(mix as nat, 16) + "_"@);
        }
        let mut names: Vec<String> = Vec::new();
        let mut n: usize = 0;
        while n < IDENTIFIER_COUNT
            invariant
                n <= IDENTIFIER_COUNT,
                head == prefix@,
                head == "r"@ + hex_digits(mixed(seed) as nat, 16) + "_"@,
                name_texts(names@) =~= Seq::new(n as nat, |k: int| opaque_name(seed, k)),
            decreases IDENTIFIER_COUNT - n,
        {
            let mut name = prefix.clone();
            push_hex(&mut name, n as u64, 2);
            let ghost before = names@;
            let ghost text = name@;
            names.push(name);
            assert(name_texts(names@) =~= name_texts(before).push(text));
            n = n + 1;
        }
        Ok(RuntimeSchema { seed, layout: StatementLayout { ids }, names })
    }

    pub fn statements(&self) -> (r: &StatementLayout)
        ensures
            *r == self.layout,
    {
        &self.layout
    }

    /// The name of a table.
    pub fn table(&self, table: LogicalTable) -> (r: &str)
        requires
            self.names@.len() == IDENTIFIER_COUNT,
        ensures
            r@ == name_texts(self.names@)[table_index(table)],
    {
        let i: usize = match table {
            LogicalTable::Warehouse => 0,
            LogicalTable::District => 1,
            LogicalTable::Customer => 2,
            LogicalTable::History => 3,
            LogicalTable::NewOrders => 4,
            LogicalTable::Orders => 5,
            LogicalTable::OrderLine => 6,
            LogicalTable::Item => 7,
            LogicalTable::Stock => 8,
        };
        self.names[i].as_str()
    }

    /// A number for the whole schema.
    pub fn fingerprint(&self) -> (r: u64)
        ensures
            r == layout_fingerprint(self.seed, self.layout.ids@, self.layout.ids@.len() as int),
    {
        let mut r: u64 = mix64(self.seed);
        let mut i: usize = 0;
        while i < self.layout.ids.len()
            invariant
                i <= self.layout.ids@.len(),
                r == layout_fingerprint(self.seed, self.layout.ids@, i as int),
            decreases self.layout.ids@.len() - i,
        {
            r = mix64(r ^ self.layout.ids[i] as u64);
            i = i + 1;
        }
        r
    }

    /// Whether the numbers can tell all statements apart.
    pub fn validate(&self) -> (r: Result<(), CatalogError>)
        ensures
            catalog_refusal(r) == self.fault(),
    {
        let ids = &self.layout.ids;
        if ids.len() != 42 {
            return Err(
                CatalogError::of(
                    join3(
                        "statement layout has ",
                        unsigned_text(ids.len() as u64).as_str(),
                        " ids, expected 42",
                    ),
                ),
            );
        }
        if self.names.len() != IDENTIFIER_COUNT {
            return Err(
                CatalogError::of(
                    join4(
                        "schema has ",
                        unsigned_text(self.names.len() as u64).as_str(),
                        " names, expected ",
                        unsigned_text(IDENTIFIER_COUNT as u64).as_str(),
                    ),
                ),
            );
        }
        let mut i: usize = 0;
        while i < ids.len()
            invariant
                i <= ids@.len(),
                ids@ == self.layout.ids@,
                self.fault() == layout_fault(ids@, i as int),
            decreases ids@.len() - i,
        {
            if ids[i] == 0 {
                return Err(CatalogError::new("statement id 0 is reserved"));
            }
            if is_repeated(ids, i) {
                return Err(
                    CatalogError::of(
                        join2("duplicate statement id ", unsigned_text(ids[i] as u64).as_str()),
                    ),
                );
            }
            i = i + 1;
        }
        Ok(())
    }

    /// A text with the names of this run in place of the identifiers.
    pub fn render_sql(&self, sql: &str) -> (r: String)
        requires
            self.names@.len() == IDENTIFIER_COUNT,
        ensures
            r@ == rendered(sql@, name_texts(self.names@)),
    {
        let list = identifier_chars();
        let text = chars_of(sql);
        let ghost names = name_texts(self.names@);
        let mut out = String::new();
        let mut i: usize = 0;
        assert(out@ + rendered(text@, names) =~= rendered(text@, names));
        while i < text.len()
            invariant
                i <= text@.len(),
                text@ == sql@,
                names == name_texts(self.names@),
                self.names@.len() == IDENTIFIER_COUNT,
                list@.len() == identifier_list().len() == IDENTIFIER_COUNT,
                forall|k: int|
                    0 <= k < list@.len() ==> (#[trigger] list@[k])@ == identifier_list()[k],
                out@ + rendered_from(text@, names, i as int) == rendered(text@, names),
            decreases text@.len() - i,
        {
            let ghost before = out@;
            if belongs_to_word(text[i]) {
                let start: usize = i;
                let mut word: Vec<char> = Vec::new();
                word.push(text[i]);
                i = i + 1;
                assert(word@ =~= text@.subrange(start as int, i as int));
                while i < text.len() && belongs_to_word(text[i])
                    invariant
                        start < i <= text@.len(),
                        word@ =~= text@.subrange(start as int, i as int),
                        word_end(text@, start + 1) == word_end(text@, i as int),
                    decreases text@.len() - i,
                {
                    word.push(text[i]);
                    i = i + 1;
                }
                let ghost rest = rendered_from(text@, names, i as int);
                match find_identifier(&word, &list) {
                    Some(k) => {
                        assert(names[k as int] == self.names@[k as int]@);
                        push_text(&mut out, self.names[k].as_str());
                    },
                    None => {
                        push_chars(&mut out, &word);
                    },
                }
                assert(out@ + rest =~= before + (renamed(word@, names) + rest));
            } else {
                let ghost rest = rendered_from(text@, names, i as int + 1);
                out.push(text[i]);
                assert(out@ + rest =~= before + (seq![text@[i as int]] + rest));
                i = i + 1;
            }
        }
        assert(out@ + rendered_from(text@, names, i as int) =~= out@);
        out
    }
}

fn is_repeated(ids: &Vec<u16>, i: usize) -> (r: bool)
    requires
        i < ids@.len(),
    ensures
        r == exists|k: int| 0 <= k < i && #[trigger] ids@[k] == ids@[i as int],
{
    let mut k: usize = 0;
    while k < i
        invariant
            k <= i < ids@.len(),
            forall|j: int| 0 <= j < k ==> ids@[j] != ids@[i as int],
        decreases i - k,
    {
        if ids[k] == ids[i] {
            assert(ids@[k as int] == ids@[i as int]);
            return true;
        }
        k = k + 1;
    }
    false
}

proof fn lemma_opaque_layout(seed: u64, ids: Seq<u16>, i: int)
    requires
        ids == Seq::new(42, |k: int| opaque_id(seed, k)),
        0 <= i <= 42,
    ensures
        layout_fault(ids, i) is None,
    decreases 42 - i,
{
    if i < 42 {
        lemma_opaque_layout(seed, ids, i + 1);
    }
}

/// The schema of every seed is accepted: its numbers are not zero and tell all
/// statements apart.
pub proof fn law_opaque_schema_is_valid(schema: RuntimeSchema)
    requires
        schema.layout.ids@ == Seq::new(42, |i: int| opaque_id(schema.seed, i)),
        schema.names@.len() == IDENTIFIER_COUNT,
    ensures
        schema.fault() is None,
{
    lemma_opaque_layout(schema.seed, schema.layout.ids@, 0);
}

} // verus!
