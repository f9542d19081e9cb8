//! Chemical reactions: reading a recipe from a line of text, and working out
//! what a wanted amount of fuel takes.

use regex::Regex;
use vstd::prelude::*;
use vstd::utf8::encode_utf8;
use crate::text::{is_number, parse_decimal, value_of};

verus! {

/// An amount of a chemical.
pub struct Compound {
    pub element: String,
    pub count: u64,
}

/// What a reaction takes and what it gives.
pub struct Recipe {
    pub ingredients: Vec<Compound>,
    pub product: Compound,
}

/// An amount of a chemical as a mathematical value.
pub struct Amount {
    pub element: Seq<char>,
    pub count: u64,
}

impl View for Compound {
    type V = Amount;

    open spec fn view(&self) -> Amount {
        Amount { element: self.element@, count: self.count }
    }
}

/// The views of a list of compounds.
pub open spec fn amounts_of(compounds: Seq<Compound>) -> Seq<Amount> {
    compounds.map_values(|c: Compound| c@)
}

/// The pattern of one compound: a number, a space, a name.
pub open spec fn compound_pattern() -> Seq<char> {
    seq!['(', '\\', 'd', '+', ')', ' ', '(', '\\', 'w', '+', ')']
}

/// For each match of `pattern` in `haystack` that does not overlap an earlier
/// one, in order, the texts of its first and second group, as the `regex`
/// crate finds them; `None` where it does not accept the pattern.
pub uninterp spec fn group_pairs(pattern: Seq<char>, haystack: Seq<char>) -> Option<
    Seq<(Seq<char>, Seq<char>)>,
>;

/// The texts of a list of pairs of strings.
pub open spec fn pairs_of(pairs: Seq<(String, String)>) -> Seq<(Seq<char>, Seq<char>)> {
    pairs.map_values(|p: (String, String)| (p.0@, p.1@))
}

/// Compiles `pattern` with `Regex::new` and walks `haystack` with
/// `Regex::captures_iter`, taking from each match the texts of groups 1 and
/// 2, empty where a group took no part. The result is named, not described.
#[verifier::external_body]
fn capture_pairs(pattern: &str, haystack: &str) -> (res: Option<Vec<(String, String)>>)
    ensures
        match group_pairs(pattern@, haystack@) {
            Some(pairs) => res is Some && pairs_of(res->Some_0@) == pairs,
            None => res is None,
        },
{
    let re = Regex::new(pattern).ok()?;
    let mut pairs = Vec::new();
    for c in re.captures_iter(haystack) {
        let first = c.get(1).map_or("", |m| m.as_str());
        let second = c.get(2).map_or("", |m| m.as_str());
        pairs.push((first.to_owned(), second.to_owned()));
    }
    Some(pairs)
}

/// The compound that a pair of texts spells: the first the count, in ASCII
/// digits and within 64 bits, the second the name.
pub open spec fn amount_of(pair: (Seq<char>, Seq<char>)) -> Option<Amount> {
    let digits = encode_utf8(pair.0);
    if is_number(digits) && value_of(digits) <= u64::MAX {
        Some(Amount { element: pair.1, count: value_of(digits) as u64 })
    } else {
        None
    }
}

/// Whether each of the first `k` pairs spells a compound.
pub open spec fn all_amounts(pairs: Seq<(Seq<char>, Seq<char>)>, k: int) -> bool {
    forall|i: int| 0 <= i < k ==> (#[trigger] amount_of(pairs[i])) is Some
}

/// The compound that a pair of texts spells.
pub fn compound_from(pair: &(String, String)) -> (res: Option<Compound>)
    ensures
        match amount_of((pair.0@, pair.1@)) {
            Some(a) => res is Some && res->Some_0@ == a,
            None => res is None,
        },
{
    let digits = pair.0.as_str().as_bytes();
    match parse_decimal(digits, 0, digits.len()) {
        Some(count) => {
            proof {
                assert(digits@.subrange(0, digits@.len() as int) =~= digits@);
            }
            Some(Compound { element: pair.1.clone(), count })
        },
        None => {
            proof {
                assert(digits@.subrange(0, digits@.len() as int) =~= digits@);
            }
            None
        },
    }
}

impl Recipe {
    /// The recipe that a list of compounds spells: the last is the product,
    /// those before it the ingredients. `None` where the list is empty or a
    /// pair spells no compound.
    pub fn from_pairs(pairs: &Vec<(String, String)>) -> (res: Option<Recipe>)
        ensures
            res is Some <==> pairs@.len() > 0 && all_amounts(pairs_of(pairs@), pairs@.len() as int),
            res is Some ==> {
                &&& res->Some_0.ingredients@.len() == pairs@.len() - 1
                &&& forall|i: int|
                    0 <= i < pairs@.len() - 1 ==> Some((#[trigger] res->Some_0.ingredients@[i])@)
                        == amount_of(pairs_of(pairs@)[i])
                &&& Some(res->Some_0.product@) == amount_of(pairs_of(pairs@)[pairs@.len() - 1])
            },
    {
        let mut compounds: Vec<Compound> = Vec::new();
        let mut i: usize = 0;
        while i < pairs.len()
            invariant
                i <= pairs.len(),
                compounds@.len() == i,
                all_amounts(pairs_of(pairs@), i as int),
                forall|k: int|
                    0 <= k < i ==> Some((#[trigger] compounds@[k])@) == amount_of(pairs_of(pairs@)[k]),
            decreases pairs.len() - i,
        {
            match compound_from(&pairs[i]) {
                Some(c) => { compounds.push(c); },
                None => {
                    proof {
                        assert(amount_of(pairs_of(pairs@)[i as int]) is None);
                    }
                    return None;
                },
            }
            i = i + 1;
        }
        match compounds.pop() {
            Some(product) => Some(Recipe { ingredients: compounds, product }),
            None => None,
        }
    }

    /// Reads a recipe such as `7 A, 1 B => 1 C`; `None` where the line holds
    /// no compound or a count that does not fit in 64 bits.
    pub fn from_str(s: &str) -> (res: Option<Recipe>)
        ensures
            match group_pairs(compound_pattern(), s@) {
                None => res is None,
                Some(pairs) => {
                    &&& res is Some <==> pairs.len() > 0 && all_amounts(pairs, pairs.len() as int)
                    &&& res is Some ==> {
                        &&& res->Some_0.ingredients@.len() == pairs.len() - 1
                        &&& forall|i: int|
                            0 <= i < pairs.len() - 1 ==> Some(
                                (#[trigger] res->Some_0.ingredients@[i])@,
                            ) == amount_of(pairs[i])
                        &&& Some(res->Some_0.product@) == amount_of(pairs[pairs.len() - 1])
                    }
                },
            },
    {
        let pattern = "(\\d+) (\\w+)";
        proof {
            reveal_strlit("(\\d+) (\\w+)");
            assert(pattern@ =~= compound_pattern());
        }
        match capture_pairs(pattern, s) {
            Some(pairs) => Recipe::from_pairs(&pairs),
            None => None,
        }
    }
}

/// A recipe as a mathematical value.
pub struct Reaction {
    pub ingredients: Seq<Amount>,
    pub product: Amount,
}

impl View for Recipe {
    type V = Reaction;

    open spec fn view(&self) -> Reaction {
        Reaction { ingredients: amounts_of(self.ingredients@), product: self.product@ }
    }
}

/// The views of a list of recipes.
pub open spec fn reactions_of(recipes: Seq<Recipe>) -> Seq<Reaction> {
    recipes.map_values(|r: Recipe| r@)
}

/// Why the amounts cannot be worked out.
#[derive(Clone, Copy, Debug, PartialEq, Eq, Structural)]
pub enum ReactionError {
    /// An amount does not fit in 64 bits.
    Overflow,
    /// A recipe gives nothing.
    ZeroYield,
    /// Ore is limited and the stock holds no entry for a raw chemical.
    NoStock,
    /// The work used up its budget of steps.
    StepLimit,
}

/// The place of the first entry for `name` in `stock`.
pub open spec fn place_of(stock: Seq<Amount>, name: Seq<char>) -> Option<int>
    decreases stock.len(),
{
    if stock.len() == 0 {
        None
    } else if stock[0].element == name {
        Some(0)
    } else {
        match place_of(stock.drop_first(), name) {
            Some(i) => Some(i + 1),
            None => None,
        }
    }
}

/// The place of the last recipe whose product is `name`.
pub open spec fn recipe_for(recipes: Seq<Reaction>, name: Seq<char>) -> Option<int>
    decreases recipes.len(),
{
    if recipes.len() == 0 {
        None
    } else if recipes.last().product.element == name {
        Some(recipes.len() - 1)
    } else {
        recipe_for(recipes.drop_last(), name)
    }
}

/// `stock` with `count` more of `name`: added to its first entry, or as a
/// new entry at the end. `None` where the sum does not fit in 64 bits.
pub open spec fn stocked(stock: Seq<Amount>, name: Seq<char>, count: u64) -> Option<Seq<Amount>> {
    match place_of(stock, name) {
        Some(i) => if stock[i].count + count <= u64::MAX {
            Some(stock.update(i, Amount { element: name, count: (stock[i].count + count) as u64 }))
        } else {
            None
        },
        None => Some(stock.push(Amount { element: name, count })),
    }
}

/// `stock` with the first entry for `name`, which it holds, set to `count`.
pub open spec fn restocked(stock: Seq<Amount>, name: Seq<char>, count: u64) -> Seq<Amount> {
    stock.update(place_of(stock, name)->Some_0, Amount { element: name, count })
}

/// The list `want` with the first `k` of `ingredients` on top, each `factor`
/// times; `None` where a product does not fit in 64 bits.
pub open spec fn ordered(want: Seq<Amount>, ingredients: Seq<Amount>, factor: u64, k: int) -> Option<
    Seq<Amount>,
>
    decreases k,
{
    if k <= 0 {
        Some(want)
    } else {
        match ordered(want, ingredients, factor, k - 1) {
            Some(before) => if ingredients[k - 1].count * factor <= u64::MAX {
                Some(
                    before.push(
                        Amount {
                            element: ingredients[k - 1].element,
                            count: (ingredients[k - 1].count * factor) as u64,
                        },
                    ),
                )
            } else {
                None
            },
            None => None,
        }
    }
}

/// What is still wanted of an amount `count` once the stock `have` is used,
/// and what the stock is then.
pub open spec fn after_stock(count: u64, have: u64) -> (u64, u64) {
    if count <= have {
        (0, (have - count) as u64)
    } else {
        ((count - have) as u64, 0)
    }
}

/// One step of the work: the top of `want` is taken off; what the stock holds
/// of it is used; for the rest its recipe is run as often as needed, which
/// puts its ingredients on `want` and what is left over into the stock. A raw
/// chemical, which has no recipe, is taken from the stock where ore is
/// `limited`, and noted in the stock as used where it is not. The result is
/// the new `want` and stock, or `None` where limited ore does not suffice.
pub open spec fn react_once(
    recipes: Seq<Reaction>,
    want: Seq<Amount>,
    rest: Seq<Amount>,
    limited: bool,
) -> Result<Option<(Seq<Amount>, Seq<Amount>)>, ReactionError> {
    let top = want.last();
    let below = want.drop_last();
    match recipe_for(recipes, top.element) {
        Some(r) => {
            let yields = recipes[r].product.count;
            let have = place_of(rest, top.element);
            let qty = if have is Some {
                after_stock(top.count, rest[have->Some_0].count).0
            } else {
                top.count
            };
            let rest1 = if have is Some {
                restocked(rest, top.element, after_stock(top.count, rest[have->Some_0].count).1)
            } else {
                rest
            };
            let factor = (qty + yields - 1) / (yields as int);
            let over = yields * factor - qty;
            if qty == 0 {
                Ok(Some((below, rest1)))
            } else if yields == 0 {
                Err(ReactionError::ZeroYield)
            } else if qty + yields - 1 > u64::MAX || yields * factor > u64::MAX {
                Err(ReactionError::Overflow)
            } else {
                match ordered(below, recipes[r].ingredients, factor as u64, recipes[r].ingredients.len() as int) {
                    None => Err(ReactionError::Overflow),
                    Some(want1) => if over == 0 {
                        Ok(Some((want1, rest1)))
                    } else {
                        match stocked(rest1, top.element, over as u64) {
                            Some(rest2) => Ok(Some((want1, rest2))),
                            None => Err(ReactionError::Overflow),
                        }
                    },
                }
            }
        },
        None => if limited {
            match place_of(rest, top.element) {
                None => Err(ReactionError::NoStock),
                Some(i) => if rest[i].count < top.count {
                    Ok(None)
                } else {
                    Ok(Some((below, restocked(rest, top.element, (rest[i].count - top.count) as u64))))
                },
            }
        } else {
            match stocked(rest, top.element, top.count) {
                Some(rest1) => Ok(Some((below, rest1))),
                None => Err(ReactionError::Overflow),
            }
        },
    }
}

/// The work until nothing is wanted, for at most `fuel` steps: whether it
/// could be done, which it cannot where limited ore does not suffice, and the
/// stock at the end.
pub open spec fn react(
    recipes: Seq<Reaction>,
    want: Seq<Amount>,
    rest: Seq<Amount>,
    limited: bool,
    fuel: nat,
) -> Result<(bool, Seq<Amount>), ReactionError>
    decreases fuel,
{
    if want.len() == 0 {
        Ok((true, rest))
    } else if fuel == 0 {
        Err(ReactionError::StepLimit)
    } else {
        match react_once(recipes, want, rest, limited) {
            Err(e) => Err(e),
            Ok(None) => Ok((false, rest)),
            Ok(Some((want1, rest1))) => react(recipes, want1, rest1, limited, (fuel - 1) as nat),
        }
    }
}

proof fn lemma_place_of(stock: Seq<Amount>, name: Seq<char>, i: int)
    requires
        0 <= i <= stock.len(),
        forall|k: int| 0 <= k < i ==> (#[trigger] stock[k]).element != name,
        i == stock.len() || stock[i].element == name,
    ensures
        place_of(stock, name) == (if i < stock.len() {
            Some(i)
        } else {
            None
        }),
    decreases stock.len(),
{
    if stock.len() > 0 && stock[0].element != name {
        let tail = stock.drop_first();
        assert forall|k: int| 0 <= k < i - 1 implies (#[trigger] tail[k]).element != name by {
            assert(tail[k] == stock[k + 1]);
        }
        lemma_place_of(tail, name, i - 1);
    }
}

proof fn lemma_recipe_for(recipes: Seq<Reaction>, name: Seq<char>, i: int)
    requires
        0 <= i <= recipes.len(),
        forall|k: int| i <= k < recipes.len() ==> (#[trigger] recipes[k]).product.element != name,
        i == 0 || recipes[i - 1].product.element == name,
    ensures
        recipe_for(recipes, name) == (if i > 0 {
            Some(i - 1)
        } else {
            None
        }),
    decreases recipes.len(),
{
    if recipes.len() > 0 && i < recipes.len() {
        let front = recipes.drop_last();
        assert(recipes.last() == recipes[recipes.len() - 1]);
        assert forall|k: int| i <= k < front.len() implies (#[trigger] front[k]).product.element
            != name by {
            assert(front[k] == recipes[k]);
        }
        if i > 0 {
            assert(front[i - 1] == recipes[i - 1]);
        }
        lemma_recipe_for(front, name, i);
    }
}

/// The place of the first entry for `name` in `stock`.
fn find_stock(stock: &Vec<Compound>, name: &String) -> (res: Option<usize>)
    ensures
        res is None ==> place_of(amounts_of(stock@), name@) is None,
        res is Some ==> place_of(amounts_of(stock@), name@) == Some(res->Some_0 as int)
            && res->Some_0 < stock@.len(),
{
    let mut i: usize = 0;
    while i < stock.len()
        invariant
            i <= stock.len(),
            forall|k: int| 0 <= k < i ==> (#[trigger] amounts_of(stock@)[k]).element != name@,
        decreases stock.len() - i,
    {
        if stock[i].element == *name {
            proof {
                assert(amounts_of(stock@)[i as int].element == name@);
                lemma_place_of(amounts_of(stock@), name@, i as int);
            }
            return Some(i);
        }
        proof {
            assert(amounts_of(stock@)[i as int].element != name@);
        }
        i = i + 1;
    }
    proof {
        lemma_place_of(amounts_of(stock@), name@, i as int);
    }
    None
}

/// The place of the last recipe whose product is `name`.
fn find_recipe(recipes: &Vec<Recipe>, name: &String) -> (res: Option<usize>)
    ensures
        res is None ==> recipe_for(reactions_of(recipes@), name@) is None,
        res is Some ==> recipe_for(reactions_of(recipes@), name@) == Some(res->Some_0 as int)
            && res->Some_0 < recipes@.len(),
{
    let mut i: usize = recipes.len();
    while i > 0
        invariant
            i <= recipes.len(),
            forall|k: int|
                i <= k < recipes@.len() ==> (#[trigger] reactions_of(recipes@)[k]).product.element
                    != name@,
        decreases i,
    {
        if recipes[i - 1].product.element == *name {
            proof {
                assert(reactions_of(recipes@)[i - 1].product.element == name@);
                lemma_recipe_for(reactions_of(recipes@), name@, i as int);
            }
            return Some(i - 1);
        }
        proof {
            assert(reactions_of(recipes@)[i - 1].product.element != name@);
        }
        i = i - 1;
    }
    proof {
        lemma_recipe_for(reactions_of(recipes@), name@, 0);
    }
    None
}

/// Adds `count` of `name` to the stock; `false`, and no change, where the sum
/// does not fit in 64 bits.
fn add_stock(stock: &mut Vec<Compound>, name: &String, count: u64) -> (res: bool)
    ensures
        match stocked(amounts_of(old(stock)@), name@, count) {
            Some(next) => res && amounts_of(final(stock)@) == next,
            None => !res && final(stock)@ == old(stock)@,
        },
{
    match find_stock(stock, name) {
        Some(i) => {
            proof {
                assert(amounts_of(stock@)[i as int] == stock@[i as int]@);
            }
            match stock[i].count.checked_add(count) {
                Some(sum) => {
                    stock[i] = Compound { element: name.clone(), count: sum };
                    proof {
                        assert(amounts_of(stock@) =~= amounts_of(old(stock)@).update(
                            i as int,
                            Amount { element: name@, count: sum },
                        ));
                    }
                    true
                },
                None => false,
            }
        },
        None => {
            stock.push(Compound { element: name.clone(), count });
            proof {
                assert(amounts_of(stock@) =~= amounts_of(old(stock)@).push(
                    Amount { element: name@, count },
                ));
            }
            true
        },
    }
}

/// Sets the entry at place `i`, the first for `name`, to `count`.
fn set_stock(stock: &mut Vec<Compound>, i: usize, name: &String, count: u64)
    requires
        place_of(amounts_of(old(stock)@), name@) == Some(i as int),
        i < old(stock)@.len(),
    ensures
        amounts_of(final(stock)@) == restocked(amounts_of(old(stock)@), name@, count),
{
    stock[i] = Compound { element: name.clone(), count };
    proof {
        assert(amounts_of(stock@) =~= amounts_of(old(stock)@).update(
            i as int,
            Amount { element: name@, count },
        ));
    }
}

/// Puts the ingredients on `want`, each `factor` times; `false` where a
/// product does not fit in 64 bits.
fn order_ingredients(want: &mut Vec<Compound>, ingredients: &Vec<Compound>, factor: u64) -> (res:
    bool)
    ensures
        match ordered(
            amounts_of(old(want)@),
            amounts_of(ingredients@),
            factor,
            ingredients@.len() as int,
        ) {
            Some(next) => res && amounts_of(final(want)@) == next,
            None => !res,
        },
{
    let mut k: usize = 0;
    while k < ingredients.len()
        invariant
            k <= ingredients.len(),
            ordered(amounts_of(old(want)@), amounts_of(ingredients@), factor, k as int) == Some(
                amounts_of(want@),
            ),
        decreases ingredients.len() - k,
    {
        let ghost before = amounts_of(want@);
        let c = &ingredients[k];
        proof {
            assert(amounts_of(ingredients@)[k as int] == c@);
        }
        match c.count.checked_mul(factor) {
            Some(count) => {
                want.push(Compound { element: c.element.clone(), count });
                proof {
                    assert(amounts_of(want@) =~= before.push(
                        Amount { element: c.element@, count },
                    ));
                }
            },
            None => {
                proof {
                    lemma_order_fails(
                        amounts_of(old(want)@),
                        amounts_of(ingredients@),
                        factor,
                        k + 1,
                        ingredients@.len() as int,
                    );
                }
                return false;
            },
        }
        k = k + 1;
    }
    true
}

proof fn lemma_order_fails(want: Seq<Amount>, ingredients: Seq<Amount>, factor: u64, k: int, later: int)
    requires
        ordered(want, ingredients, factor, k) is None,
        k <= later,
    ensures
        ordered(want, ingredients, factor, later) is None,
    decreases later,
{
    if k < later {
        lemma_order_fails(want, ingredients, factor, k, later - 1);
    }
}

/// The name of the chemical that everything is made for.
pub open spec fn fuel_name() -> Seq<char> {
    seq!['F', 'U', 'E', 'L']
}

/// The name of the raw chemical.
pub open spec fn ore_name() -> Seq<char> {
    seq!['O', 'R', 'E']
}

proof fn lemma_batches(qty: int, yields: int)
    by (nonlinear_arith)
    requires
        qty >= 1,
        yields >= 1,
    ensures
        yields * ((qty + yields - 1) / yields) >= qty,
        (qty + yields - 1) / yields >= 0,
{
}

/// One step of the work; see `react_once`. With `Ok(false)` limited ore does
/// not suffice, and nothing has changed but `want`, which has lost its top.
fn react_step(
    recipes: &Vec<Recipe>,
    want: &mut Vec<Compound>,
    rest: &mut Vec<Compound>,
    limited_ore: bool,
) -> (res: Result<bool, ReactionError>)
    requires
        old(want)@.len() > 0,
    ensures
        match react_once(
            reactions_of(recipes@),
            amounts_of(old(want)@),
            amounts_of(old(rest)@),
            limited_ore,
        ) {
            Err(e) => res == Err::<bool, ReactionError>(e),
            Ok(None) => res == Ok::<bool, ReactionError>(false) && amounts_of(final(rest)@)
                == amounts_of(old(rest)@),
            Ok(Some((want1, rest1))) => res == Ok::<bool, ReactionError>(true) && amounts_of(
                final(want)@,
            ) == want1 && amounts_of(final(rest)@) == rest1,
        },
{
    let ghost all = amounts_of(want@);
    let top = match want.pop() {
        Some(top) => top,
        None => { return Err(ReactionError::StepLimit); },
    };
    proof {
        assert(amounts_of(want@) =~= all.drop_last());
        assert(all.last() == top@);
    }
    match find_recipe(recipes, &top.element) {
        Some(r) => {
            proof {
                assert(reactions_of(recipes@)[r as int] == recipes@[r as int]@);
            }
            let mut qty = top.count;
            match find_stock(rest, &top.element) {
                Some(i) => {
                    proof {
                        assert(amounts_of(rest@)[i as int] == rest@[i as int]@);
                    }
                    let have = rest[i].count;
                    if qty <= have {
                        set_stock(rest, i, &top.element, have - qty);
                        qty = 0;
                    } else {
                        qty = qty - have;
                        set_stock(rest, i, &top.element, 0);
                    }
                },
                None => {},
            }
            if qty == 0 {
                return Ok(true);
            }
            let yields = recipes[r].product.count;
            if yields == 0 {
                return Err(ReactionError::ZeroYield);
            }
            let sum = match qty.checked_add(yields - 1) {
                Some(sum) => sum,
                None => { return Err(ReactionError::Overflow); },
            };
            let factor = sum / yields;
            let made = match yields.checked_mul(factor) {
                Some(made) => made,
                None => { return Err(ReactionError::Overflow); },
            };
            if !order_ingredients(want, &recipes[r].ingredients, factor) {
                return Err(ReactionError::Overflow);
            }
            proof {
                lemma_batches(qty as int, yields as int);
            }
            let over = made - qty;
            if over != 0 {
                if !add_stock(rest, &top.element, over) {
                    return Err(ReactionError::Overflow);
                }
            }
            Ok(true)
        },
        None => {
            if limited_ore {
                match find_stock(rest, &top.element) {
                    None => Err(ReactionError::NoStock),
                    Some(i) => {
                        proof {
                            assert(amounts_of(rest@)[i as int] == rest@[i as int]@);
                        }
                        let have = rest[i].count;
                        if have < top.count {
                            Ok(false)
                        } else {
                            set_stock(rest, i, &top.element, have - top.count);
                            Ok(true)
                        }
                    },
                }
            } else if add_stock(rest, &top.element, top.count) {
                Ok(true)
            } else {
                Err(ReactionError::Overflow)
            }
        },
    }
}

/// Works out what `fuel_qty` of fuel takes, for at most `max_steps` steps.
/// With `limited_ore` raw chemicals are taken from `rest`, and the result is
/// whether they suffice; without it they are noted in `rest` as used. What a
/// recipe gives more than is wanted is kept in `rest` and used again.
pub fn produce_fuel(
    recipes: &Vec<Recipe>,
    fuel_qty: u64,
    limited_ore: bool,
    rest: &mut Vec<Compound>,
    max_steps: u64,
) -> (res: Result<bool, ReactionError>)
    ensures
        match react(
            reactions_of(recipes@),
            seq![Amount { element: fuel_name(), count: fuel_qty }],
            amounts_of(old(rest)@),
            limited_ore,
            max_steps as nat,
        ) {
            Err(e) => res == Err::<bool, ReactionError>(e),
            Ok((done, stock)) => res == Ok::<bool, ReactionError>(done) && amounts_of(final(rest)@)
                == stock,
        },
{
    let ghost goal = react(
        reactions_of(recipes@),
        seq![Amount { element: fuel_name(), count: fuel_qty }],
        amounts_of(rest@),
        limited_ore,
        max_steps as nat,
    );
    let mut want: Vec<Compound> = Vec::new();
    let name = "FUEL".to_owned();
    proof {
        reveal_strlit("FUEL");
        assert(name@ =~= fuel_name());
    }
    want.push(Compound { element: name, count: fuel_qty });
    proof {
        assert(amounts_of(want@) =~= seq![Amount { element: fuel_name(), count: fuel_qty }]);
    }
    let mut steps = max_steps;
    while want.len() > 0
        invariant
            goal == react(
                reactions_of(recipes@),
                seq![Amount { element: fuel_name(), count: fuel_qty }],
                amounts_of(old(rest)@),
                limited_ore,
                max_steps as nat,
            ),
            react(
                reactions_of(recipes@),
                amounts_of(want@),
                amounts_of(rest@),
                limited_ore,
                steps as nat,
            ) == goal,
        decreases steps,
    {
        if steps == 0 {
            return Err(ReactionError::StepLimit);
        }
        match react_step(recipes, &mut want, rest, limited_ore) {
            Err(e) => { return Err(e); },
            Ok(false) => { return Ok(false); },
            Ok(true) => {},
        }
        steps = steps - 1;
    }
    Ok(true)
}

/// The ore in the cargo hold.
pub const GOAL: u64 = 1000000000000;

/// Whether the ore in the cargo hold suffices for `fuel_qty` of fuel.
pub open spec fn enough_ore(recipes: Seq<Reaction>, fuel_qty: u64, steps: nat) -> Result<
    bool,
    ReactionError,
> {
    match react(
        recipes,
        seq![Amount { element: fuel_name(), count: fuel_qty }],
        seq![Amount { element: ore_name(), count: GOAL }],
        true,
        steps,
    ) {
        Err(e) => Err(e),
        Ok((done, _)) => Ok(done),
    }
}

/// Whether the ore in the cargo hold suffices for `fuel_qty` of fuel, worked
/// out in at most `max_steps` steps.
pub fn can_produce_fuel(recipes: &Vec<Recipe>, fuel_qty: u64, max_steps: u64) -> (res: Result<
    bool,
    ReactionError,
>)
    ensures
        res == enough_ore(reactions_of(recipes@), fuel_qty, max_steps as nat),
{
    let mut rest: Vec<Compound> = Vec::new();
    let name = "ORE".to_owned();
    proof {
        reveal_strlit("ORE");
        assert(name@ =~= ore_name());
    }
    rest.push(Compound { element: name, count: GOAL });
    proof {
        assert(amounts_of(rest@) =~= seq![Amount { element: ore_name(), count: GOAL }]);
    }
    produce_fuel(recipes, fuel_qty, true, &mut rest, max_steps)
}

/// The ore that `fuel_qty` of fuel takes; `None` where it takes none.
pub open spec fn ore_for(recipes: Seq<Reaction>, fuel_qty: u64, steps: nat) -> Result<
    Option<u64>,
    ReactionError,
> {
    match react(
        recipes,
        seq![Amount { element: fuel_name(), count: fuel_qty }],
        Seq::empty(),
        false,
        steps,
    ) {
        Err(e) => Err(e),
        Ok((_, stock)) => match place_of(stock, ore_name()) {
            Some(i) => Ok(Some(stock[i].count)),
            None => Ok(None),
        },
    }
}

/// The ore that `fuel_qty` of fuel takes, worked out in at most `max_steps`
/// steps.
pub fn ore_needed(recipes: &Vec<Recipe>, fuel_qty: u64, max_steps: u64) -> (res: Result<
    Option<u64>,
    ReactionError,
>)
    ensures
        res == ore_for(reactions_of(recipes@), fuel_qty, max_steps as nat),
{
    let mut rest: Vec<Compound> = Vec::new();
    proof {
        assert(amounts_of(rest@) =~= Seq::<Amount>::empty());
    }
    match produce_fuel(recipes, fuel_qty, false, &mut rest, max_steps) {
        Err(e) => Err(e),
        Ok(_) => {
            let name = "ORE".to_owned();
            proof {
                reveal_strlit("ORE");
                assert(name@ =~= ore_name());
            }
            match find_stock(&rest, &name) {
                Some(i) => {
                    proof {
                        assert(amounts_of(rest@)[i as int] == rest@[i as int]@);
                    }
                    Ok(Some(rest[i].count))
                },
                None => Ok(None),
            }
        },
    }
}

/// The bounds after doubling: `max` is doubled, and `min` follows it, while
/// the ore suffices for `max`.
pub open spec fn doubled(recipes: Seq<Reaction>, min: u64, max: u64, steps: nat) -> Result<
    (u64, u64),
    ReactionError,
>
    decreases u64::MAX - max,
{
    match enough_ore(recipes, max, steps) {
        Err(e) => Err(e),
        Ok(false) => Ok((min, max)),
        Ok(true) => if 0 < max && max * 2 <= u64::MAX {
            doubled(recipes, max, (max * 2) as u64, steps)
        } else {
            Err(ReactionError::Overflow)
        },
    }
}

/// The lower bound after halving the gap between `min` and `max` until it is
/// less than 2: the middle becomes `min` where the ore suffices for it, and
/// `max` where not.
pub open spec fn bisected(recipes: Seq<Reaction>, min: u64, max: u64, steps: nat) -> Result<
    u64,
    ReactionError,
>
    decreases max - min,
{
    if max - min < 2 {
        Ok(min)
    } else {
        let m = (min + (max - min) / 2) as u64;
        match enough_ore(recipes, m, steps) {
            Err(e) => Err(e),
            Ok(true) => bisected(recipes, m, max, steps),
            Ok(false) => bisected(recipes, min, m, steps),
        }
    }
}

/// The most fuel that the search finds the ore in the cargo hold to suffice
/// for.
pub open spec fn most_fuel(recipes: Seq<Reaction>, steps: nat) -> Result<u64, ReactionError> {
    match doubled(recipes, 1, 2, steps) {
        Err(e) => Err(e),
        Ok((min, max)) => bisected(recipes, min, max, steps),
    }
}

/// The most fuel that the ore in the cargo hold suffices for: an upper bound
/// is found by doubling, then the answer by bisection. Each amount tried is
/// worked out in at most `max_steps` steps.
pub fn max_fuel(recipes: &Vec<Recipe>, max_steps: u64) -> (res: Result<u64, ReactionError>)
    ensures
        res == most_fuel(reactions_of(recipes@), max_steps as nat),
{
    let ghost all = reactions_of(recipes@);
    let mut min: u64 = 1;
    let mut max: u64 = 2;
    loop
        invariant_except_break
            doubled(all, min, max, max_steps as nat) == doubled(all, 1, 2, max_steps as nat),
        invariant
            all == reactions_of(recipes@),
        ensures
            doubled(all, 1, 2, max_steps as nat) == Ok::<(u64, u64), ReactionError>((min, max)),
        decreases u64::MAX - max,
    {
        match can_produce_fuel(recipes, max, max_steps) {
            Err(e) => { return Err(e); },
            Ok(false) => { break ; },
            Ok(true) => {},
        }
        if max == 0 || max > u64::MAX / 2 {
            return Err(ReactionError::Overflow);
        }
        min = max;
        max = min * 2;
    }
    loop
        invariant_except_break
            bisected(all, min, max, max_steps as nat) == most_fuel(all, max_steps as nat),
        invariant
            all == reactions_of(recipes@),
        ensures
            most_fuel(all, max_steps as nat) == Ok::<u64, ReactionError>(min),
        decreases max - min,
    {
        if max < min || max - min < 2 {
            break ;
        }
        let m = min + (max - min) / 2;
        match can_produce_fuel(recipes, m, max_steps) {
            Err(e) => { return Err(e); },
            Ok(true) => { min = m; },
            Ok(false) => { max = m; },
        }
    }
    Ok(min)
}

} // verus!
