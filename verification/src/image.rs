//! An image sent as layers of digits: the layer with the fewest zeroes, and
//! the picture that the layers show when laid over each other.

use vstd::prelude::*;
use crate::text::string_of;

verus! {

/// The width of an image, in pixels.
pub const WIDTH: usize = 25;

/// The height of an image, in pixels.
pub const HEIGHT: usize = 6;

/// The number of pixels of a layer.
pub open spec fn layer_size() -> nat {
    150
}

/// How often `digit` occurs in `layer`.
pub open spec fn occurrences(layer: Seq<char>, digit: char) -> nat
    decreases layer.len(),
{
    if layer.len() == 0 {
        0
    } else {
        occurrences(layer.drop_last(), digit) + if layer.last() == digit {
            1nat
        } else {
            0nat
        }
    }
}

/// A digit occurs at most once per pixel.
pub proof fn lemma_occurrences_bound(layer: Seq<char>, digit: char)
    ensures
        occurrences(layer, digit) <= layer.len(),
    decreases layer.len(),
{
    if layer.len() > 0 {
        lemma_occurrences_bound(layer.drop_last(), digit);
    }
}

/// How often `digit` occurs in `layer`.
pub fn count_digits(layer: &[char], digit: char) -> (res: usize)
    ensures
        res == occurrences(layer@, digit),
{
    let mut acc: usize = 0;
    let mut i: usize = 0;
    while i < layer.len()
        invariant
            i <= layer.len(),
            acc <= i,
            acc == occurrences(layer@.take(i as int), digit),
        decreases layer.len() - i,
    {
        proof {
            assert(layer@.take(i + 1).drop_last() =~= layer@.take(i as int));
        }
        if layer[i] == digit {
            acc = acc + 1;
        }
        i = i + 1;
    }
    proof {
        assert(layer@.take(i as int) =~= layer@);
    }
    acc
}

/// The contents of a list of layers.
pub open spec fn layers_of(layers: Seq<&[char]>) -> Seq<Seq<char>> {
    layers.map_values(|l: &[char]| l@)
}

/// Among the first `k` layers, the least number of zeroes below the size of
/// a layer, and the first layer that has so few; the size and 0 where no
/// layer has fewer zeroes than pixels.
pub open spec fn fewest_zeroes(layers: Seq<Seq<char>>, k: nat) -> (nat, nat)
    decreases k,
{
    if k == 0 {
        (layer_size(), 0)
    } else {
        let before = fewest_zeroes(layers, (k - 1) as nat);
        let zeroes = occurrences(layers[k - 1], '0');
        if zeroes < before.0 {
            (zeroes, (k - 1) as nat)
        } else {
            before
        }
    }
}

/// What `fewest_zeroes` finds: no layer among the first `k` has fewer zeroes
/// than the layer found, and no layer before it as few; where no layer has
/// fewer zeroes than a layer has pixels, it is the size and the first layer.
pub proof fn lemma_fewest_zeroes(layers: Seq<Seq<char>>, k: nat)
    requires
        k <= layers.len(),
    ensures
        fewest_zeroes(layers, k).0 <= layer_size(),
        forall|j: int|
            0 <= j < k ==> fewest_zeroes(layers, k).0 <= occurrences(#[trigger] layers[j], '0')
                || fewest_zeroes(layers, k).0 == layer_size(),
        fewest_zeroes(layers, k).0 == layer_size() ==> fewest_zeroes(layers, k).1 == 0
            && forall|j: int| 0 <= j < k ==> occurrences(#[trigger] layers[j], '0') >= layer_size(),
        fewest_zeroes(layers, k).0 < layer_size() ==> {
            &&& fewest_zeroes(layers, k).1 < k
            &&& occurrences(layers[fewest_zeroes(layers, k).1 as int], '0') == fewest_zeroes(
                layers,
                k,
            ).0
            &&& forall|j: int|
                0 <= j < fewest_zeroes(layers, k).1 ==> occurrences(#[trigger] layers[j], '0')
                    > fewest_zeroes(layers, k).0
        },
    decreases k,
{
    if k > 0 {
        lemma_fewest_zeroes(layers, (k - 1) as nat);
    }
}

/// The first of the layers with the fewest zeroes; the first layer where none
/// has fewer zeroes than an image has pixels.
pub fn find_layer_fewest_zeroes<'a>(layers: &'a Vec<&'a [char]>) -> (res: &'a [char])
    requires
        layers@.len() > 0,
    ensures
        res@ == layers_of(layers@)[fewest_zeroes(layers_of(layers@), layers@.len()).1 as int],
{
    let mut min_idx: usize = 0;
    let mut min: usize = WIDTH * HEIGHT;
    let mut idx: usize = 0;
    while idx < layers.len()
        invariant
            idx <= layers.len(),
            layers@.len() > 0,
            min_idx < layers.len(),
            (min as nat, min_idx as nat) == fewest_zeroes(layers_of(layers@), idx as nat),
        decreases layers.len() - idx,
    {
        let nb_zeroes = count_digits(layers[idx], '0');
        if nb_zeroes < min {
            min = nb_zeroes;
            min_idx = idx;
        }
        idx = idx + 1;
    }
    layers[min_idx]
}

/// The colour of a pixel under the layers from the `k`-th on: that of the
/// first layer that is not transparent ('2') there, and '2' under none.
pub open spec fn pixel(layers: Seq<Seq<char>>, at: int, k: nat) -> char
    decreases layers.len() - k,
{
    if k >= layers.len() {
        '2'
    } else if at < layers[k as int].len() && layers[k as int][at] != '2' {
        layers[k as int][at]
    } else {
        pixel(layers, at, k + 1)
    }
}

/// The picture that the layers show, the first layer on top.
pub fn merge_layers(layers: &Vec<&[char]>) -> (image: Vec<char>)
    requires
        forall|k: int| 0 <= k < layers@.len() ==> (#[trigger] layers@[k])@.len() <= layer_size(),
    ensures
        image@.len() == layer_size(),
        forall|at: int| 0 <= at < layer_size() ==> #[trigger] image@[at] == pixel(layers_of(layers@), at, 0),
{
    let mut image: Vec<char> = vec!['2'; WIDTH * HEIGHT];
    let ghost all = layers_of(layers@);
    let mut k: usize = layers.len();
    while k > 0
        invariant
            k <= layers.len(),
            all == layers_of(layers@),
            image@.len() == layer_size(),
            forall|k: int| 0 <= k < layers@.len() ==> (#[trigger] layers@[k])@.len() <= layer_size(),
            forall|at: int| 0 <= at < layer_size() ==> #[trigger] image@[at] == pixel(all, at, k as nat),
        decreases k,
    {
        k = k - 1;
        let layer = layers[k];
        let ghost under = image@;
        let mut idx: usize = 0;
        while idx < layer.len()
            invariant
                idx <= layer.len(),
                layer@.len() <= layer_size(),
                image@.len() == layer_size(),
                forall|at: int| 0 <= at < idx ==> #[trigger] image@[at] == (if layer@[at] != '2' {
                    layer@[at]
                } else {
                    under[at]
                }),
                forall|at: int| idx <= at < layer_size() ==> #[trigger] image@[at] == under[at],
            decreases layer.len() - idx,
        {
            if layer[idx] != '2' {
                image[idx] = layer[idx];
            }
            idx = idx + 1;
        }
        proof {
            assert(all[k as int] == layer@);
        }
    }
    image
}

/// The number of ones times the number of twos in the layer with the fewest
/// zeroes.
pub fn checksum(layers: &Vec<&[char]>) -> (res: usize)
    requires
        layers@.len() > 0,
        forall|k: int| 0 <= k < layers@.len() ==> (#[trigger] layers@[k])@.len() <= layer_size(),
    ensures
        res == occurrences(
            layers_of(layers@)[fewest_zeroes(layers_of(layers@), layers@.len()).1 as int],
            '1',
        ) * occurrences(
            layers_of(layers@)[fewest_zeroes(layers_of(layers@), layers@.len()).1 as int],
            '2',
        ),
{
    let layer = find_layer_fewest_zeroes(layers);
    let nb_ones = count_digits(layer, '1');
    let nb_twos = count_digits(layer, '2');
    proof {
        lemma_occurrences_bound(layer@, '1');
        lemma_occurrences_bound(layer@, '2');
        lemma_fewest_index(layers_of(layers@), layers@.len());
        assert(0 <= nb_ones * nb_twos <= 150 * 150) by (nonlinear_arith)
            requires
                0 <= nb_ones <= 150,
                0 <= nb_twos <= 150,
        ;
    }
    nb_ones * nb_twos
}

/// The layer found is one of the layers.
proof fn lemma_fewest_index(layers: Seq<Seq<char>>, k: nat)
    requires
        layers.len() > 0,
        k <= layers.len(),
    ensures
        fewest_zeroes(layers, k).1 < layers.len(),
    decreases k,
{
    if k > 0 {
        lemma_fewest_index(layers, (k - 1) as nat);
    }
}

/// The first `k` pixels as text: a line break before each row, a blank for
/// each black pixel ('0') and an `X` for every other.
pub open spec fn picture(pixels: Seq<char>, k: int) -> Seq<char>
    decreases k,
{
    if k <= 0 {
        Seq::empty()
    } else {
        let before = picture(pixels, k - 1);
        let mark = if pixels[k - 1] == '0' { ' ' } else { 'X' };
        if (k - 1) % 25 == 0 {
            before.push('\n').push(mark)
        } else {
            before.push(mark)
        }
    }
}

/// The image as text: the rows one below the other, then a line break.
pub fn render(pixels: &Vec<char>) -> (res: String)
    ensures
        res@ == picture(pixels@, pixels@.len() as int).push('\n'),
{
    let mut out: Vec<char> = Vec::new();
    let mut idx: usize = 0;
    while idx < pixels.len()
        invariant
            idx <= pixels.len(),
            out@ == picture(pixels@, idx as int),
        decreases pixels.len() - idx,
    {
        if idx % WIDTH == 0 {
            out.push('\n');
        }
        if pixels[idx] == '0' {
            out.push(' ');
        } else {
            out.push('X');
        }
        idx = idx + 1;
    }
    out.push('\n');
    string_of(&out)
}

} // verus!
