//! Representacao de um individuo (rota + custo) e a avaliacao de custo.
use vstd::prelude::*;
use vstd::pervasive::VecAdditionalExecFns;

verus! {

/// Um candidato a solucao: uma rota (permutacao dos indices `0..n` dos
/// pontos) e o custo total do ciclo que ela descreve, mantido em cache.
pub struct Individuo {
    pub rota: Vec<usize>,
    pub custo: u64,
}

impl Clone for Individuo {
    fn clone(&self) -> (r: Self)
        ensures
            r.rota@ == self.rota@,
            r.custo == self.custo,
    {
        Individuo { rota: self.rota.clone(), custo: self.custo }
    }
}

/// A visao matematica da matriz de distancias: uma sequencia de linhas.
pub open spec fn visao_matriz(dist: &Vec<Vec<u32>>) -> Seq<Seq<u32>> {
    Seq::new(dist@.len(), |i: int| dist@[i]@)
}

/// Uma matriz de distancias valida de ordem `n`: quadrada, simetrica e com
/// diagonal nula.
pub open spec fn matriz_valida(dist: Seq<Seq<u32>>, n: int) -> bool {
    &&& dist.len() == n
    &&& forall|i: int| 0 <= i < n ==> (#[trigger] dist[i]).len() == n
    &&& forall|i: int, j: int|
        0 <= i < n && 0 <= j < n ==> #[trigger] dist[i][j] == dist[j][i]
    &&& forall|i: int| 0 <= i < n ==> #[trigger] dist[i][i] == 0
}

/// Todas as distancias entre pontos distintos sao estritamente positivas;
/// exclui a instancia degenerada em que todos os custos seriam zero.
pub open spec fn distancias_positivas(dist: Seq<Seq<u32>>) -> bool {
    forall|i: int, j: int|
        0 <= i < dist.len() && 0 <= j < dist.len() && i != j ==> #[trigger] dist[i][j] >= 1
}

/// `rota` e uma permutacao de `0..n`: comprimento `n`, valores abaixo de
/// `n`, sem repeticao.
pub open spec fn eh_permutacao(rota: Seq<usize>, n: int) -> bool {
    &&& rota.len() == n
    &&& forall|i: int| 0 <= i < n ==> (#[trigger] rota[i]) < n
    &&& forall|i: int, j: int| 0 <= i < j < n ==> rota[i] != rota[j]
}

/// Soma das primeiras `k` arestas consecutivas da rota:
/// `dist[rota[0]][rota[1]] + ... + dist[rota[k-1]][rota[k]]`.
pub open spec fn soma_arestas(rota: Seq<usize>, dist: Seq<Seq<u32>>, k: int) -> int
    decreases k,
{
    if k <= 0 {
        0
    } else {
        soma_arestas(rota, dist, k - 1) + dist[rota[k - 1] as int][rota[k] as int]
    }
}

/// O custo do ciclo descrito pela rota: as arestas consecutivas mais a
/// aresta que fecha o ciclo, do ultimo ponto de volta ao primeiro.
pub open spec fn custo_rota(rota: Seq<usize>, dist: Seq<Seq<u32>>) -> int
    recommends
        rota.len() >= 1,
{
    soma_arestas(rota, dist, rota.len() - 1)
        + dist[rota[rota.len() - 1] as int][rota[0] as int]
}

/// O invariante de um individuo: a rota e uma permutacao e o custo em cache
/// e exatamente o custo recalculado da rota.
pub open spec fn individuo_valido(ind: Individuo, dist: Seq<Seq<u32>>) -> bool {
    &&& eh_permutacao(ind.rota@, dist.len() as int)
    &&& ind.custo == custo_rota(ind.rota@, dist)
}

/// Lei da permutacao: uma rota que e permutacao de `0..n` nao so tem
/// comprimento `n` e valores abaixo de `n` sem repeticao, como cobre todo
/// valor abaixo de `n`: o conjunto dos seus valores e exatamente
/// `{0, ..., n - 1}`.
pub proof fn lema_permutacao_completa(rota: Seq<usize>, n: int)
    requires
        eh_permutacao(rota, n),
    ensures
        forall|v: usize| v < n ==> #[trigger] rota.contains(v),
{
    broadcast use vstd::set::group_set_axioms;
    broadcast use vstd::seq_lib::seq_to_set_is_finite;

    let ri = rota.map_values(|x: usize| x as int);
    assert(ri.no_duplicates()) by {
        assert forall|i: int, j: int|
            0 <= i < ri.len() && 0 <= j < ri.len() && i != j implies ri[i] != ri[j] by {
            if i < j {
                assert(rota[i] != rota[j]);
            } else {
                assert(rota[j] != rota[i]);
            }
        }
    }
    ri.unique_seq_to_set();
    let s = ri.to_set();
    let faixa = vstd::set_lib::set_int_range(0, n);
    assert(s.subset_of(faixa)) by {
        assert forall|v: int| s.contains(v) implies 0 <= v < n by {
            assert(ri.contains(v));
            let i = choose|i: int| 0 <= i < ri.len() && ri[i] == v;
            assert(rota[i] < n);
        }
    }
    vstd::set_lib::lemma_int_range(0, n);
    vstd::set_lib::lemma_subset_equality(s, faixa);
    assert forall|v: usize| v < n implies #[trigger] rota.contains(v) by {
        assert(faixa.contains(v as int));
        assert(s.contains(v as int));
        assert(ri.contains(v as int));
        let i = choose|i: int| 0 <= i < ri.len() && ri[i] == v as int;
        assert(rota[i] == v);
    }
}

/// A sequencia `s` com os valores das posicoes `i` e `j` trocados entre si.
pub open spec fn troca(s: Seq<usize>, i: int, j: int) -> Seq<usize>
    recommends
        0 <= i < s.len(),
        0 <= j < s.len(),
{
    s.update(i, s[j]).update(j, s[i])
}

/// Trocar duas posicoes preserva a propriedade de permutacao.
pub proof fn lema_troca_permutacao(s: Seq<usize>, i: int, j: int, n: int)
    requires
        eh_permutacao(s, n),
        0 <= i < n,
        0 <= j < n,
    ensures
        eh_permutacao(troca(s, i, j), n),
{
    let t = troca(s, i, j);
    assert forall|k: int, l: int| 0 <= k < l < n implies t[k] != t[l] by {
        assert(t[k] == if k == j { s[i] } else if k == i { s[j] } else { s[k] });
        assert(t[l] == if l == j { s[i] } else if l == i { s[j] } else { s[l] });
    }
}

/// A soma de `k` arestas e nao negativa e nunca passa de `k` vezes a maior
/// distancia representavel.
pub proof fn lema_limites_soma_arestas(rota: Seq<usize>, dist: Seq<Seq<u32>>, k: int)
    requires
        k >= 0,
    ensures
        0 <= soma_arestas(rota, dist, k) <= k * 0xffff_ffff,
    decreases k,
{
    if k > 0 {
        lema_limites_soma_arestas(rota, dist, k - 1);
        assert((k - 1) * 0xffff_ffff + 0xffff_ffff == k * 0xffff_ffff) by (nonlinear_arith);
    }
}

/// O custo de uma rota de comprimento `n >= 1` fica entre `0` e
/// `n * 0xffff_ffff`; em particular cabe em `u64` enquanto `n <= 2^32`.
pub proof fn lema_limites_custo(rota: Seq<usize>, dist: Seq<Seq<u32>>)
    requires
        rota.len() >= 1,
    ensures
        0 <= custo_rota(rota, dist) <= rota.len() * 0xffff_ffff,
{
    lema_limites_soma_arestas(rota, dist, rota.len() - 1);
    assert((rota.len() - 1) * 0xffff_ffff + 0xffff_ffff == rota.len() * 0xffff_ffff)
        by (nonlinear_arith);
}

/// Numa permutacao, pontos consecutivos diferem; com distancias positivas
/// fora da diagonal, cada uma das `k` primeiras arestas vale pelo menos 1.
pub proof fn lema_soma_arestas_positiva(rota: Seq<usize>, dist: Seq<Seq<u32>>, k: int, n: int)
    requires
        eh_permutacao(rota, n),
        matriz_valida(dist, n),
        distancias_positivas(dist),
        0 <= k < n,
    ensures
        soma_arestas(rota, dist, k) >= k,
    decreases k,
{
    if k > 0 {
        lema_soma_arestas_positiva(rota, dist, k - 1, n);
        assert(rota[k - 1] != rota[k]);
    }
}

/// O custo do ciclo de uma permutacao de ao menos dois pontos, sobre uma
/// matriz valida com distancias positivas, e estritamente positivo.
pub proof fn lema_custo_positivo(rota: Seq<usize>, dist: Seq<Seq<u32>>, n: int)
    requires
        eh_permutacao(rota, n),
        matriz_valida(dist, n),
        distancias_positivas(dist),
        2 <= n,
    ensures
        custo_rota(rota, dist) >= 1,
{
    lema_soma_arestas_positiva(rota, dist, n - 1, n);
}

/// Calcula o custo do ciclo de `rota` sobre a matriz `dist`.
pub fn custo_de(rota: &Vec<usize>, dist: &Vec<Vec<u32>>) -> (c: u64)
    requires
        matriz_valida(visao_matriz(dist), dist@.len() as int),
        eh_permutacao(rota@, dist@.len() as int),
        1 <= dist@.len() <= 0x1_0000_0000,
    ensures
        c as int == custo_rota(rota@, visao_matriz(dist)),
{
    let n = dist.len();
    let mut c: u64 = 0;
    proof {
        lema_limites_soma_arestas(rota@, visao_matriz(dist), 0);
    }
    for i in 0..n - 1
        invariant
            matriz_valida(visao_matriz(dist), dist@.len() as int),
            eh_permutacao(rota@, dist@.len() as int),
            1 <= n == dist@.len() <= 0x1_0000_0000,
            c as int == soma_arestas(rota@, visao_matriz(dist), i as int),
            c as int <= i * 0xffff_ffff,
    {
        proof {
            lema_limites_soma_arestas(rota@, visao_matriz(dist), i as int);
            assert(i * 0xffff_ffff + 0xffff_ffff <= 0x1_0000_0000 * 0xffff_ffff)
                by (nonlinear_arith)
                requires
                    0 <= i + 1 <= 0x1_0000_0000,
            ;
        }
        c = c + dist[rota[i]][rota[i + 1]] as u64;
    }
    proof {
        lema_limites_soma_arestas(rota@, visao_matriz(dist), n - 1 as int);
        assert((n - 1) * 0xffff_ffff + 0xffff_ffff <= 0x1_0000_0000 * 0xffff_ffff)
            by (nonlinear_arith)
            requires
                1 <= n <= 0x1_0000_0000,
        ;
    }
    assert(visao_matriz(dist)[rota@[n - 1] as int].len() == n);
    c = c + dist[rota[n - 1]][rota[0]] as u64;
    c
}

/// Troca os valores das posicoes `i` e `j` da rota.
pub fn trocar_genes(rota: &mut Vec<usize>, i: usize, j: usize)
    requires
        i < old(rota)@.len(),
        j < old(rota)@.len(),
    ensures
        final(rota)@ == troca(old(rota)@, i as int, j as int),
{
    let vi = rota[i];
    let vj = rota[j];
    rota.set(i, vj);
    rota.set(j, vi);
}

impl Individuo {
    /// Recalcula o custo do ciclo da rota atual e o grava no cache; deve ser
    /// chamado depois de toda edicao da rota antes que o custo seja lido.
    pub fn calcular_custo(&mut self, dist: &Vec<Vec<u32>>)
        requires
            matriz_valida(visao_matriz(dist), dist@.len() as int),
            eh_permutacao(old(self).rota@, dist@.len() as int),
            1 <= dist@.len() <= 0x1_0000_0000,
        ensures
            final(self).rota@ == old(self).rota@,
            final(self).custo as int == custo_rota(old(self).rota@, visao_matriz(dist)),
            individuo_valido(*final(self), visao_matriz(dist)),
    {
        self.custo = custo_de(&self.rota, dist);
    }
}

/// Aplica a mutacao com os dois sorteios ja feitos: se as posicoes
/// diferem, troca os genes; se coincidem, nada muda. O custo em cache nao e
/// tocado: quem chama deve recalcula-lo antes de ler o individuo.
pub fn mutacao_com_sorteios(ind: &mut Individuo, ponto1: usize, ponto2: usize)
    requires
        ponto1 < old(ind).rota@.len(),
        ponto2 < old(ind).rota@.len(),
    ensures
        final(ind).custo == old(ind).custo,
        final(ind).rota@ == troca(old(ind).rota@, ponto1 as int, ponto2 as int),
        ponto1 == ponto2 ==> final(ind).rota@ == old(ind).rota@,
        eh_permutacao(old(ind).rota@, old(ind).rota@.len() as int) ==> eh_permutacao(
            final(ind).rota@,
            old(ind).rota@.len() as int,
        ),
{
    let ghost antes = ind.rota@;
    if ponto1 != ponto2 {
        trocar_genes(&mut ind.rota, ponto1, ponto2);
    } else {
        proof {
            assert(troca(antes, ponto1 as int, ponto2 as int) =~= antes);
        }
    }
    proof {
        if eh_permutacao(antes, antes.len() as int) {
            lema_troca_permutacao(antes, ponto1 as int, ponto2 as int, antes.len() as int);
        }
    }
}

/// Sorteia duas posicoes da rota e, se diferem, troca os genes entre elas;
/// com sorteios iguais a rota fica como esta. O custo em cache nao e
/// tocado.
pub fn mutacao(ind: &mut Individuo, ger: &mut crate::aleatorio::Gerador)
    requires
        old(ind).rota@.len() >= 1,
    ensures
        final(ind).custo == old(ind).custo,
        exists|p1: int, p2: int|
            0 <= p1 < old(ind).rota@.len() && 0 <= p2 < old(ind).rota@.len() && final(ind).rota@
                == #[trigger] troca(old(ind).rota@, p1, p2),
        eh_permutacao(old(ind).rota@, old(ind).rota@.len() as int) ==> eh_permutacao(
            final(ind).rota@,
            old(ind).rota@.len() as int,
        ),
{
    let ponto1 = ger.abaixo_de(ind.rota.len());
    let ponto2 = ger.abaixo_de(ind.rota.len());
    mutacao_com_sorteios(ind, ponto1, ponto2);
}

/// Gera um individuo com uma rota aleatoria: sorteia, sem reposicao, um
/// elemento da reserva de indices ainda livres ate esgota-la, o que garante
/// uma permutacao valida; calcula e grava o custo antes de devolver.
pub fn gerar_rota(dist: &Vec<Vec<u32>>, ger: &mut crate::aleatorio::Gerador) -> (ind: Individuo)
    requires
        matriz_valida(visao_matriz(dist), dist@.len() as int),
        1 <= dist@.len() <= 0x1_0000_0000,
    ensures
        individuo_valido(ind, visao_matriz(dist)),
{
    let n = dist.len();
    let mut disponiveis: Vec<usize> = Vec::new();
    for i in 0..n
        invariant
            disponiveis@.len() == i,
            forall|k: int| 0 <= k < i ==> #[trigger] disponiveis@[k] == k,
    {
        disponiveis.push(i);
    }
    let mut rota: Vec<usize> = Vec::new();
    for it in 0..n
        invariant
            n == dist@.len(),
            rota@.len() == it,
            disponiveis@.len() == n - it,
            forall|k: int| 0 <= k < rota@.len() ==> (#[trigger] rota@[k]) < n,
            forall|k: int, l: int| 0 <= k < l < rota@.len() ==> rota@[k] != rota@[l],
            forall|k: int| 0 <= k < disponiveis@.len() ==> (#[trigger] disponiveis@[k]) < n,
            forall|k: int, l: int|
                0 <= k < l < disponiveis@.len() ==> disponiveis@[k] != disponiveis@[l],
            forall|k: int, l: int|
                0 <= k < rota@.len() && 0 <= l < disponiveis@.len() ==> rota@[k]
                    != disponiveis@[l],
    {
        let ghost disp_antes = disponiveis@;
        let indice = ger.abaixo_de(disponiveis.len());
        let escolhido = disponiveis[indice];
        rota.push(escolhido);
        disponiveis.swap_remove(indice);
        proof {
            assert forall|k: int, l: int|
                0 <= k < l < disponiveis@.len() implies disponiveis@[k] != disponiveis@[l] by {
                assert(disponiveis@[k] == if k == indice {
                    disp_antes.last()
                } else {
                    disp_antes[k]
                });
                assert(disponiveis@[l] == if l == indice {
                    disp_antes.last()
                } else {
                    disp_antes[l]
                });
            }
            assert forall|k: int, l: int|
                0 <= k < rota@.len() && 0 <= l < disponiveis@.len() implies rota@[k]
                != disponiveis@[l] by {
                assert(disponiveis@[l] == if l == indice {
                    disp_antes.last()
                } else {
                    disp_antes[l]
                });
            }
        }
    }
    let custo = custo_de(&rota, dist);
    Individuo { rota, custo }
}

} // verus!
