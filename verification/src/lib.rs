//! Busca heuristica de uma rota fechada curta sobre um conjunto fixo de
//! pontos (um problema do caixeiro viajante pequeno), por um algoritmo
//! genetico: geracao de rotas aleatorias, selecao por roleta, cruzamento por
//! religacao de caminhos, mutacao e substituicao geracional.
//!
//! O nucleo trabalha sobre uma matriz de distancias inteiras, simetrica e
//! com diagonal nula, fornecida pelo chamador; cada `Individuo` carrega uma
//! rota (permutacao dos indices dos pontos) e o custo do ciclo, mantidos em
//! conjunto pelos invariantes dos contratos.
pub mod aleatorio;
pub mod genetica;
pub mod individuo;
